//! Constant folding: evaluating right-hand sides whose operands are all constants.

use vstd::prelude::*;
use crate::mir::nodes::{
    BasicBlockData, BasicBlockId, Constant, ConstantValue, LocalId, MirFunction, Operand, Place, ProjectionElem, Rvalue,
    Statement, StatementKind, TerminatorKind,
};
use crate::mir::optimize::{
    edge, lemma_reachable_self, lemma_reachable_step, reachable, reachable_targets_in_range, successor_blocks,
    successors, targets_in_range,
};
use crate::text::{chars_of, i64_value, parse_i64, push_str_chars, signed_decimal, signed_decimal_chars, str_eq, string_from_chars};
use crate::types::{same_type, Type};

verus! {

/// What a constant value holds, with texts taken by their characters.
pub enum ConstView {
    Unit,
    Integer(Seq<char>),
    Float(Seq<char>),
    Str(Seq<char>),
    Bool(bool),
    Function(Seq<char>),
}

pub open spec fn value_view(v: ConstantValue) -> ConstView {
    match v {
        ConstantValue::Unit => ConstView::Unit,
        ConstantValue::Integer(t) => ConstView::Integer(t@),
        ConstantValue::Float(t) => ConstView::Float(t@),
        ConstantValue::String(t) => ConstView::Str(t@),
        ConstantValue::Bool(b) => ConstView::Bool(b),
        ConstantValue::Function(t) => ConstView::Function(t@),
    }
}

pub open spec fn fits_i64(n: int) -> bool {
    i64::MIN <= n <= i64::MAX
}

pub open spec fn abs(n: int) -> int {
    if n < 0 { -n } else { n }
}

/// Integer division rounding toward zero, as Rust's `/` on integers does.
pub open spec fn trunc_div(x: int, y: int) -> int {
    let q = abs(x) / abs(y);
    if (x < 0) == (y < 0) { q } else { -q }
}

/// The value a unary operator gives on a constant, where it folds.
pub open spec fn unary_value(op: Seq<char>, v: ConstView) -> Option<ConstView> {
    match v {
        ConstView::Integer(t) => if op == "Negate"@ { Some(ConstView::Integer(seq!['-'] + t)) } else { None },
        ConstView::Bool(b) => if op == "Not"@ { Some(ConstView::Bool(!b)) } else { None },
        _ => None,
    }
}

/// The value of `x op y` on two integers for the three ring operators.
pub open spec fn ring_value(op: Seq<char>, x: int, y: int) -> int {
    if op == "Add"@ { x + y } else if op == "Subtract"@ { x - y } else { x * y }
}

pub open spec fn is_ring_op(op: Seq<char>) -> bool {
    op == "Add"@ || op == "Subtract"@ || op == "Multiply"@
}

/// The value a binary operator gives on two constants, where it folds: integer arithmetic
/// on texts that parse as `i64` (with no division by zero), `And`/`Or` on booleans, and
/// `Add` on strings (concatenation).
pub open spec fn binary_value(op: Seq<char>, l: ConstView, r: ConstView) -> Option<ConstView> {
    match (l, r) {
        (ConstView::Integer(a), ConstView::Integer(b)) => {
            if is_ring_op(op) {
                match (i64_value(a), i64_value(b)) {
                    (Some(x), Some(y)) => Some(ConstView::Integer(signed_decimal(ring_value(op, x as int, y as int)))),
                    _ => None,
                }
            } else if op == "Divide"@ {
                match i64_value(b) {
                    Some(y) => if y == 0 {
                        None
                    } else {
                        match i64_value(a) {
                            Some(x) => Some(ConstView::Integer(signed_decimal(trunc_div(x as int, y as int)))),
                            None => None,
                        }
                    },
                    None => None,
                }
            } else {
                None
            }
        },
        (ConstView::Bool(a), ConstView::Bool(b)) => {
            if op == "And"@ {
                Some(ConstView::Bool(a && b))
            } else if op == "Or"@ {
                Some(ConstView::Bool(a || b))
            } else {
                None
            }
        },
        (ConstView::Str(a), ConstView::Str(b)) => if op == "Add"@ { Some(ConstView::Str(a + b)) } else { None },
        _ => None,
    }
}

/// Whether folding `l op r` would overflow `i64`, where the fold panics.
pub open spec fn binary_overflows(op: Seq<char>, l: ConstView, r: ConstView) -> bool {
    match (l, r) {
        (ConstView::Integer(a), ConstView::Integer(b)) => match (i64_value(a), i64_value(b)) {
            (Some(x), Some(y)) => {
                if is_ring_op(op) {
                    !fits_i64(ring_value(op, x as int, y as int))
                } else if op == "Divide"@ {
                    x == i64::MIN && y == -1
                } else {
                    false
                }
            },
            _ => false,
        },
        _ => false,
    }
}

/// The type and value a right-hand side folds to, where all it reads is constant.
pub open spec fn rvalue_constant(rv: Rvalue) -> Option<(Type, ConstView)> {
    match rv {
        Rvalue::Use(Operand::Constant(c)) => Some((c.ty, value_view(c.value))),
        Rvalue::UnaryOp { op, operand: Operand::Constant(c) } => match unary_value(op@, value_view(c.value)) {
            Some(v) => Some((c.ty, v)),
            None => None,
        },
        Rvalue::BinaryOp { op, left: Operand::Constant(l), right: Operand::Constant(r) } => {
            match binary_value(op@, value_view(l.value), value_view(r.value)) {
                Some(v) => Some((l.ty, v)),
                None => None,
            }
        },
        _ => None,
    }
}

/// Whether folding the right-hand side would overflow.
pub open spec fn rvalue_overflows(rv: Rvalue) -> bool {
    match rv {
        Rvalue::BinaryOp { op, left: Operand::Constant(l), right: Operand::Constant(r) } => {
            binary_overflows(op@, value_view(l.value), value_view(r.value))
        },
        _ => false,
    }
}

/// Whether an optional constant is the expected type and value, up to copies of the type.
pub open spec fn constant_matches(r: Option<Constant>, expect: Option<(Type, ConstView)>) -> bool {
    match (r, expect) {
        (Some(c), Some((t, v))) => same_type(c.ty, t) && value_view(c.value) == v,
        (None, None) => true,
        _ => false,
    }
}

/// Whether `r` is the use of a constant of exactly this type and value.
pub open spec fn is_constant_use(r: Rvalue, t: Type, v: ConstView) -> bool {
    match r {
        Rvalue::Use(Operand::Constant(c)) => c.ty == t && value_view(c.value) == v,
        _ => false,
    }
}

/// Whether `after` is `rv` with a constant right-hand side folded to its value.
pub open spec fn folded(rv: Rvalue, after: Rvalue) -> bool {
    match rvalue_constant(rv) {
        Some((t, v)) => is_constant_use(after, t, v),
        None => after == rv,
    }
}

fn truncating_div(x: i64, y: i64) -> (q: i64)
    requires
        y != 0,
        !(x == i64::MIN && y == -1),
    ensures
        q == trunc_div(x as int, y as int),
{
    let mx: u64 = if x == i64::MIN {
        9223372036854775808u64
    } else if x < 0 {
        (-x) as u64
    } else {
        x as u64
    };
    let my: u64 = if y == i64::MIN {
        9223372036854775808u64
    } else if y < 0 {
        (-y) as u64
    } else {
        y as u64
    };
    assert(mx as int == abs(x as int) && my as int == abs(y as int));
    let m = mx / my;
    assert(m <= mx) by (nonlinear_arith)
        requires
            my >= 1,
            m == mx / my,
    ;
    if my >= 2 {
        assert(m <= mx / 2) by (nonlinear_arith)
            requires
                my >= 2,
                m == mx / my,
        ;
    }
    if (x < 0) == (y < 0) {
        m as i64
    } else if m == 9223372036854775808u64 {
        i64::MIN
    } else {
        -(m as i64)
    }
}

/// The `String` holding `n` in decimal.
fn decimal_string(n: i64) -> (s: String)
    ensures
        s@ == signed_decimal(n as int),
{
    string_from_chars(&signed_decimal_chars(n))
}

/// The value of a unary operator on a constant value, where it folds.
fn unary_result(op: &str, value: &ConstantValue) -> (r: Option<ConstantValue>)
    ensures
        r is Some <==> unary_value(op@, value_view(*value)) is Some,
        r matches Some(x) ==> unary_value(op@, value_view(*value)) == Some(value_view(x)),
{
    match value {
        ConstantValue::Integer(t) => {
            if str_eq(op, "Negate") {
                let mut text = Vec::new();
                text.push('-');
                push_str_chars(&mut text, t.as_str());
                Some(ConstantValue::Integer(string_from_chars(&text)))
            } else {
                None
            }
        },
        ConstantValue::Bool(b) => {
            if str_eq(op, "Not") {
                Some(ConstantValue::Bool(!*b))
            } else {
                None
            }
        },
        _ => None,
    }
}

/// The value of a binary operator on two constant values, where it folds.
fn binary_result(op: &str, left: &ConstantValue, right: &ConstantValue) -> (r: Option<ConstantValue>)
    requires
        !binary_overflows(op@, value_view(*left), value_view(*right)),
    ensures
        r is Some <==> binary_value(op@, value_view(*left), value_view(*right)) is Some,
        r matches Some(x) ==> binary_value(op@, value_view(*left), value_view(*right)) == Some(value_view(x)),
{
    match (left, right) {
        (ConstantValue::Integer(a), ConstantValue::Integer(b)) => {
            let add = str_eq(op, "Add");
            let subtract = str_eq(op, "Subtract");
            let multiply = str_eq(op, "Multiply");
            if add || subtract || multiply {
                let x = match parse_i64(a.as_str()) {
                    Some(x) => x,
                    None => return None,
                };
                let y = match parse_i64(b.as_str()) {
                    Some(y) => y,
                    None => return None,
                };
                let n = if add { x + y } else if subtract { x - y } else { x * y };
                Some(ConstantValue::Integer(decimal_string(n)))
            } else if str_eq(op, "Divide") {
                let y = match parse_i64(b.as_str()) {
                    Some(y) => y,
                    None => return None,
                };
                if y == 0 {
                    return None;
                }
                let x = match parse_i64(a.as_str()) {
                    Some(x) => x,
                    None => return None,
                };
                Some(ConstantValue::Integer(decimal_string(truncating_div(x, y))))
            } else {
                None
            }
        },
        (ConstantValue::Bool(a), ConstantValue::Bool(b)) => {
            if str_eq(op, "And") {
                Some(ConstantValue::Bool(*a && *b))
            } else if str_eq(op, "Or") {
                Some(ConstantValue::Bool(*a || *b))
            } else {
                None
            }
        },
        (ConstantValue::String(a), ConstantValue::String(b)) => {
            if str_eq(op, "Add") {
                let mut text = chars_of(a.as_str());
                push_str_chars(&mut text, b.as_str());
                Some(ConstantValue::String(string_from_chars(&text)))
            } else {
                None
            }
        },
        _ => None,
    }
}

/// A copy of a constant value.
pub fn copy_value(value: &ConstantValue) -> (r: ConstantValue)
    ensures
        r == *value,
{
    match value {
        ConstantValue::Unit => ConstantValue::Unit,
        ConstantValue::Integer(t) => ConstantValue::Integer(t.clone()),
        ConstantValue::Float(t) => ConstantValue::Float(t.clone()),
        ConstantValue::String(t) => ConstantValue::String(t.clone()),
        ConstantValue::Bool(b) => ConstantValue::Bool(*b),
        ConstantValue::Function(t) => ConstantValue::Function(t.clone()),
    }
}

/// A copy of a constant.
pub fn copy_constant(constant: &Constant) -> (r: Constant)
    ensures
        same_type(r.ty, constant.ty),
        r.value == constant.value,
{
    Constant { ty: constant.ty.duplicate(), value: copy_value(&constant.value) }
}

/// The constant an operand names directly, if it is one.
fn operand_constant(operand: &Operand) -> (r: Option<Constant>)
    ensures
        match (r, *operand) {
            (Some(c), Operand::Constant(k)) => same_type(c.ty, k.ty) && c.value == k.value,
            (None, Operand::Constant(_)) => false,
            (Some(_), _) => false,
            (None, _) => true,
        },
{
    match operand {
        Operand::Constant(constant) => Some(copy_constant(constant)),
        Operand::Copy(_) | Operand::Move(_) => None,
    }
}

/// Folds a binary operator on two constants; the result takes the left operand's type.
fn fold_binary(op: &str, left: &Constant, right: &Constant) -> (r: Option<Constant>)
    requires
        !binary_overflows(op@, value_view(left.value), value_view(right.value)),
    ensures
        constant_matches(r, match binary_value(op@, value_view(left.value), value_view(right.value)) {
            Some(v) => Some((left.ty, v)),
            None => None,
        }),
{
    match binary_result(op, &left.value, &right.value) {
        Some(value) => Some(Constant { ty: left.ty.duplicate(), value }),
        None => None,
    }
}

/// Evaluates a right-hand side whose operands are all constants: a constant use gives
/// itself, `Negate` and `Not` fold on integer and boolean constants, and binary operators
/// fold as `binary_value` says. Anything else gives `None`.
pub fn evaluate_constant_rvalue(rvalue: &Rvalue) -> (r: Option<Constant>)
    requires
        !rvalue_overflows(*rvalue),
    ensures
        constant_matches(r, rvalue_constant(*rvalue)),
{
    match rvalue {
        Rvalue::Use(Operand::Constant(constant)) => Some(copy_constant(constant)),
        Rvalue::UnaryOp { op, operand } => {
            let constant = match operand_constant(operand) {
                Some(c) => c,
                None => return None,
            };
            match unary_result(op.as_str(), &constant.value) {
                Some(value) => Some(Constant { ty: constant.ty, value }),
                None => None,
            }
        },
        Rvalue::BinaryOp { op, left, right } => {
            match (left, right) {
                (Operand::Constant(l), Operand::Constant(r)) => fold_binary(op.as_str(), l, r),
                _ => None,
            }
        },
        _ => None,
    }
}

/// Folds a right-hand side in place of itself: a constant one becomes the use of its value,
/// anything else comes back as it was.
pub fn fold_rvalue(rvalue: Rvalue) -> (r: Rvalue)
    requires
        !rvalue_overflows(rvalue),
    ensures
        folded(rvalue, r),
{
    match rvalue {
        Rvalue::UnaryOp { op, operand: Operand::Constant(c) } => {
            match unary_result(op.as_str(), &c.value) {
                Some(value) => Rvalue::Use(Operand::Constant(Constant { ty: c.ty, value })),
                None => Rvalue::UnaryOp { op, operand: Operand::Constant(c) },
            }
        },
        Rvalue::BinaryOp { op, left: Operand::Constant(l), right: Operand::Constant(r) } => {
            match binary_result(op.as_str(), &l.value, &r.value) {
                Some(value) => Rvalue::Use(Operand::Constant(Constant { ty: l.ty, value })),
                None => Rvalue::BinaryOp { op, left: Operand::Constant(l), right: Operand::Constant(r) },
            }
        },
        other => other,
    }
}

/// A rewrite of right-hand sides.
pub enum Rewrite {
    /// Constant folding, as `folded` says.
    Fold,
    /// Algebraic identities, then constant folding, as `identities_applied` says.
    Identities,
}

pub open spec fn rewrites(rewrite: Rewrite, before: Rvalue, after: Rvalue) -> bool {
    match rewrite {
        Rewrite::Fold => folded(before, after),
        Rewrite::Identities => crate::mir::optimize::identities_applied(before, after),
    }
}

/// Whether `after` is `before` with the right-hand side of an assignment rewritten; any
/// other statement stays as it was.
pub open spec fn statement_rewritten(before: Statement, after: Statement, rel: Rewrite) -> bool {
    &&& after.span == before.span
    &&& match before.kind {
        StatementKind::Assign(place, rv) => match after.kind {
            StatementKind::Assign(q, r) => q == place && rewrites(rel, rv, r),
            _ => false,
        },
        _ => after.kind == before.kind,
    }
}

/// Whether `after` is `before` with each statement rewritten by `rel`, and the same id and
/// terminator.
pub open spec fn block_rewritten(before: BasicBlockData, after: BasicBlockData, rel: Rewrite) -> bool {
    &&& after.id == before.id
    &&& after.terminator == before.terminator
    &&& after.statements@.len() == before.statements@.len()
    &&& forall|i: int| 0 <= i < before.statements@.len()
        ==> #[trigger] statement_rewritten(before.statements@[i], after.statements@[i], rel)
}

/// Whether folding the statement's right-hand side would overflow.
pub open spec fn statement_overflows(s: Statement) -> bool {
    match s.kind {
        StatementKind::Assign(_, rv) => rvalue_overflows(rv),
        _ => false,
    }
}

pub open spec fn block_overflows(b: BasicBlockData) -> bool {
    exists|i: int| 0 <= i < b.statements@.len() && #[trigger] statement_overflows(b.statements@[i])
}

/// Folds the right-hand side of an assignment.
fn fold_statement(statement: Statement) -> (r: Statement)
    requires
        !statement_overflows(statement),
    ensures
        statement_rewritten(statement, r, Rewrite::Fold),
{
    let Statement { kind, span } = statement;
    match kind {
        StatementKind::Assign(place, value) => Statement { kind: StatementKind::Assign(place, fold_rvalue(value)), span },
        other => Statement { kind: other, span },
    }
}

/// Replaces each assignment whose right-hand side is constant by the use of its value.
pub fn fold_block_constants(block: &mut BasicBlockData)
    requires
        !block_overflows(*old(block)),
    ensures
        block_rewritten(*old(block), *final(block), Rewrite::Fold),
{
    let ghost before = block.statements@;
    let mut pending: Vec<Statement> = Vec::new();
    std::mem::swap(&mut pending, &mut block.statements);
    let mut done: Vec<Statement> = Vec::new();
    let ghost n = before.len();
    while pending.len() > 0
        invariant
            done@.len() + pending@.len() == n,
            before.len() == n,
            pending@ == before.subrange(done@.len() as int, n as int),
            forall|i: int| 0 <= i < before.len() ==> !#[trigger] statement_overflows(before[i]),
            forall|i: int| 0 <= i < done@.len()
                ==> #[trigger] statement_rewritten(before[i], done@[i], Rewrite::Fold),
        decreases pending@.len(),
    {
        let ghost k = done@.len() as int;
        let statement = pending.remove(0);
        proof {
            assert(statement == before[k]);
            assert(pending@ =~= before.subrange(k + 1, n as int));
        }
        let folded_statement = fold_statement(statement);
        done.push(folded_statement);
    }
    block.statements = done;
}

/// What is known of each local on entry to a block: the constant it holds, where known.
pub type ConstantEnv = Vec<Option<Constant>>;

/// Whether `after` is `before` with only the right-hand sides of assignments changed.
pub open spec fn statement_refined(before: Statement, after: Statement) -> bool {
    &&& after.span == before.span
    &&& match before.kind {
        StatementKind::Assign(place, _) => match after.kind {
            StatementKind::Assign(q, _) => q == place,
            _ => false,
        },
        _ => after.kind == before.kind,
    }
}

/// Whether `after` is `before` with operands rewritten, where a branch may have become a
/// jump to one of its two targets.
pub open spec fn terminator_refined(before: TerminatorKind, after: TerminatorKind) -> bool {
    match before {
        TerminatorKind::Branch { then_bb, else_bb, .. } => match after {
            TerminatorKind::Branch { then_bb: t, else_bb: e, .. } => t == then_bb && e == else_bb,
            TerminatorKind::Goto { target } => target == then_bb || target == else_bb,
            _ => false,
        },
        TerminatorKind::Match { arms, otherwise, .. } => match after {
            TerminatorKind::Match { arms: a, otherwise: o, .. } => a == arms && o == otherwise,
            _ => false,
        },
        TerminatorKind::Call { args, destination, target, .. } => match after {
            TerminatorKind::Call { args: a, destination: d, target: t, .. } => a@.len() == args@.len() && d == destination
                && t == target,
            _ => false,
        },
        TerminatorKind::Try { ok_local, err_local, ok_target, err_target, .. } => match after {
            TerminatorKind::Try { ok_local: ol, err_local: el, ok_target: ot, err_target: et, .. } => ol == ok_local
                && el == err_local && ot == ok_target && et == err_target,
            _ => false,
        },
        _ => after == before,
    }
}

/// Whether `after` is `before` with statements and terminator refined.
pub open spec fn block_refined(before: BasicBlockData, after: BasicBlockData) -> bool {
    &&& after.id == before.id
    &&& terminator_refined(before.terminator, after.terminator)
    &&& after.statements@.len() == before.statements@.len()
    &&& forall|i: int| 0 <= i < before.statements@.len()
        ==> #[trigger] statement_refined(before.statements@[i], after.statements@[i])
}

/// The local a statement writes or ends, if any.
pub open spec fn statement_local(s: Statement) -> Option<LocalId> {
    match s.kind {
        StatementKind::StorageLive(l) => Some(l),
        StatementKind::StorageDead(l) => Some(l),
        StatementKind::Drop(l) => Some(l),
        StatementKind::Assign(p, _) => Some(p.local),
        StatementKind::Nop => None,
    }
}

/// Every local the block's statements write or end is one of the first `n`.
pub open spec fn block_locals_in_range(b: BasicBlockData, n: nat) -> bool {
    forall|i: int| 0 <= i < b.statements@.len() ==> match #[trigger] statement_local(b.statements@[i]) {
        Some(l) => l.0 < n,
        None => true,
    }
}

pub proof fn lemma_refined_successors(before: TerminatorKind, after: TerminatorKind)
    requires
        terminator_refined(before, after),
    ensures
        forall|k: int| 0 <= k < successors(after).len() ==> successors(before).contains(#[trigger] successors(after)[k]),
{
    assert forall|k: int| 0 <= k < successors(after).len() implies successors(before).contains(#[trigger] successors(after)[k]) by {
        match before {
            TerminatorKind::Branch { then_bb, else_bb, .. } => {
                match after {
                    TerminatorKind::Goto { target } => {
                        if target == then_bb {
                            assert(successors(before)[0] == then_bb);
                        } else {
                            assert(successors(before)[1] == else_bb);
                        }
                    },
                    _ => {
                        assert(successors(before)[k] == successors(after)[k]);
                    },
                }
            },
            _ => {
                assert(successors(before) == successors(after));
                assert(successors(before)[k] == successors(after)[k]);
            },
        }
    }
}

pub proof fn lemma_refined_trans(a: BasicBlockData, b: BasicBlockData, c: BasicBlockData)
    requires
        block_refined(a, b),
        block_refined(b, c),
    ensures
        block_refined(a, c),
{
    assert forall|i: int| 0 <= i < a.statements@.len() implies #[trigger] statement_refined(a.statements@[i], c.statements@[i]) by {
        assert(statement_refined(a.statements@[i], b.statements@[i]));
        assert(statement_refined(b.statements@[i], c.statements@[i]));
    }
}

/// The constant the environment holds for a place: only a whole local can be known.
pub open spec fn place_known(place: Place, env: Seq<Option<Constant>>) -> Option<Constant> {
    if place.projection@.len() == 0 && place.local.0 < env.len() {
        env[place.local.0 as int]
    } else {
        None
    }
}

/// Whether `r` is a copy of the optional constant `c`: the same type and value.
pub open spec fn copied_constant(r: Option<Constant>, c: Option<Constant>) -> bool {
    match (r, c) {
        (Some(a), Some(b)) => same_type(a.ty, b.ty) && a.value == b.value,
        (None, None) => true,
        _ => false,
    }
}

/// Whether two environments know the same constants, up to copies.
pub open spec fn envs_match(a: Seq<Option<Constant>>, b: Seq<Option<Constant>>) -> bool {
    &&& a.len() == b.len()
    &&& forall|i: int| 0 <= i < a.len() ==> #[trigger] copied_constant(a[i], b[i])
}

/// Whether `after` is `before` with a read of a local whose constant the environment knows
/// replaced by a copy of that constant.
pub open spec fn operand_rewritten(before: Operand, after: Operand, env: Seq<Option<Constant>>) -> bool {
    match before {
        Operand::Copy(p) | Operand::Move(p) => match place_known(p, env) {
            Some(k) => match after {
                Operand::Constant(c) => same_type(c.ty, k.ty) && c.value == k.value,
                _ => false,
            },
            None => after == before,
        },
        Operand::Constant(_) => after == before,
    }
}

pub open spec fn operands_rewritten(before: Seq<Operand>, after: Seq<Operand>, env: Seq<Option<Constant>>) -> bool {
    &&& after.len() == before.len()
    &&& forall|i: int| 0 <= i < before.len() ==> #[trigger] operand_rewritten(before[i], after[i], env)
}

pub open spec fn fields_rewritten(
    before: Seq<(String, Operand)>,
    after: Seq<(String, Operand)>,
    env: Seq<Option<Constant>>,
) -> bool {
    &&& after.len() == before.len()
    &&& forall|i: int| 0 <= i < before.len() ==> #[trigger] field_rewritten(before[i], after[i], env)
}

pub open spec fn field_rewritten(before: (String, Operand), after: (String, Operand), env: Seq<Option<Constant>>) -> bool {
    after.0 == before.0 && operand_rewritten(before.1, after.1, env)
}

/// Whether `after` is `before` with every operand rewritten by the environment.
pub open spec fn rvalue_rewritten(before: Rvalue, after: Rvalue, env: Seq<Option<Constant>>) -> bool {
    match before {
        Rvalue::Use(o) => match after {
            Rvalue::Use(a) => operand_rewritten(o, a, env),
            _ => false,
        },
        Rvalue::UnaryOp { op, operand } => match after {
            Rvalue::UnaryOp { op: op2, operand: a } => op2 == op && operand_rewritten(operand, a, env),
            _ => false,
        },
        Rvalue::BinaryOp { op, left, right } => match after {
            Rvalue::BinaryOp { op: op2, left: l, right: r } => op2 == op && operand_rewritten(left, l, env)
                && operand_rewritten(right, r, env),
            _ => false,
        },
        Rvalue::AggregateStruct { path, fields } => match after {
            Rvalue::AggregateStruct { path: p2, fields: f2 } => p2 == path && fields_rewritten(fields@, f2@, env),
            _ => false,
        },
        Rvalue::AggregateArray { elements } => match after {
            Rvalue::AggregateArray { elements: e2 } => operands_rewritten(elements@, e2@, env),
            _ => false,
        },
        Rvalue::RepeatArray { value, length } => match after {
            Rvalue::RepeatArray { value: v2, length: n2 } => n2 == length && operand_rewritten(value, v2, env),
            _ => false,
        },
        Rvalue::ResultOk(o) => match after {
            Rvalue::ResultOk(a) => operand_rewritten(o, a, env),
            _ => false,
        },
        Rvalue::ResultErr(o) => match after {
            Rvalue::ResultErr(a) => operand_rewritten(o, a, env),
            _ => false,
        },
    }
}

/// The constant a place holds by the environment: only a whole local can be known.
fn lookup_place_constant(place: &Place, env: &ConstantEnv) -> (r: Option<Constant>)
    ensures
        copied_constant(r, place_known(*place, env@)),
{
    if place.projection.len() == 0 && place.local.0 < env.len() {
        match &env[place.local.0] {
            Some(c) => Some(copy_constant(c)),
            None => None,
        }
    } else {
        None
    }
}

/// Replaces a read of a local whose constant is known by that constant.
fn rewrite_operand(operand: Operand, env: &ConstantEnv) -> (r: Operand)
    ensures
        operand_rewritten(operand, r, env@),
{
    match operand {
        Operand::Copy(place) => match lookup_place_constant(&place, env) {
            Some(c) => Operand::Constant(c),
            None => Operand::Copy(place),
        },
        Operand::Move(place) => match lookup_place_constant(&place, env) {
            Some(c) => Operand::Constant(c),
            None => Operand::Move(place),
        },
        Operand::Constant(c) => Operand::Constant(c),
    }
}

fn rewrite_operands(operands: Vec<Operand>, env: &ConstantEnv) -> (r: Vec<Operand>)
    ensures
        operands_rewritten(operands@, r@, env@),
{
    let ghost before = operands@;
    let ghost n = operands@.len();
    let mut pending = operands;
    let mut done: Vec<Operand> = Vec::new();
    while pending.len() > 0
        invariant
            done@.len() + pending@.len() == n,
            before.len() == n,
            pending@ == before.subrange(done@.len() as int, n as int),
            forall|i: int| 0 <= i < done@.len() ==> #[trigger] operand_rewritten(before[i], done@[i], env@),
        decreases pending@.len(),
    {
        let ghost k = done@.len() as int;
        let operand = pending.remove(0);
        proof {
            assert(operand == before[k]);
            assert(pending@ =~= before.subrange(k + 1, n as int));
        }
        done.push(rewrite_operand(operand, env));
    }
    done
}

fn rewrite_fields(fields: Vec<(String, Operand)>, env: &ConstantEnv) -> (r: Vec<(String, Operand)>)
    ensures
        fields_rewritten(fields@, r@, env@),
{
    let ghost before = fields@;
    let ghost n = fields@.len();
    let mut pending = fields;
    let mut done: Vec<(String, Operand)> = Vec::new();
    while pending.len() > 0
        invariant
            done@.len() + pending@.len() == n,
            before.len() == n,
            pending@ == before.subrange(done@.len() as int, n as int),
            forall|i: int| 0 <= i < done@.len() ==> #[trigger] field_rewritten(before[i], done@[i], env@),
        decreases pending@.len(),
    {
        let ghost k = done@.len() as int;
        let (name, operand) = pending.remove(0);
        proof {
            assert(name == before[k].0 && operand == before[k].1);
            assert(pending@ =~= before.subrange(k + 1, n as int));
        }
        let ghost done0 = done@;
        let rewritten = rewrite_operand(operand, env);
        done.push((name, rewritten));
        proof {
            assert forall|i: int| 0 <= i < done@.len() implies #[trigger] field_rewritten(before[i], done@[i], env@) by {
                if i < k {
                    assert(done@[i] == done0[i]);
                }
            }
        }
    }
    done
}

fn rewrite_rvalue(rvalue: Rvalue, env: &ConstantEnv) -> (r: Rvalue)
    ensures
        rvalue_rewritten(rvalue, r, env@),
{
    match rvalue {
        Rvalue::Use(operand) => Rvalue::Use(rewrite_operand(operand, env)),
        Rvalue::UnaryOp { op, operand } => Rvalue::UnaryOp { op, operand: rewrite_operand(operand, env) },
        Rvalue::BinaryOp { op, left, right } => Rvalue::BinaryOp {
            op,
            left: rewrite_operand(left, env),
            right: rewrite_operand(right, env),
        },
        Rvalue::AggregateStruct { path, fields } => Rvalue::AggregateStruct { path, fields: rewrite_fields(fields, env) },
        Rvalue::AggregateArray { elements } => Rvalue::AggregateArray { elements: rewrite_operands(elements, env) },
        Rvalue::RepeatArray { value, length } => Rvalue::RepeatArray { value: rewrite_operand(value, env), length },
        Rvalue::ResultOk(operand) => Rvalue::ResultOk(rewrite_operand(operand, env)),
        Rvalue::ResultErr(operand) => Rvalue::ResultErr(rewrite_operand(operand, env)),
    }
}

/// Whether `x op y` overflows `i64`, for the ring operators and division.
fn integer_op_overflows(op: &str, x: i64, y: i64) -> (r: bool)
    ensures
        r == (if is_ring_op(op@) {
            !fits_i64(ring_value(op@, x as int, y as int))
        } else if op@ == "Divide"@ {
            x == i64::MIN && y == -1
        } else {
            false
        }),
{
    let a = x as i128;
    let b = y as i128;
    if str_eq(op, "Add") {
        let s = a + b;
        s < i64::MIN as i128 || s > i64::MAX as i128
    } else if str_eq(op, "Subtract") {
        let s = a - b;
        s < i64::MIN as i128 || s > i64::MAX as i128
    } else if str_eq(op, "Multiply") {
        assert(-0x4000_0000_0000_0000_0000_0000_0000_0000 <= a * b <= 0x4000_0000_0000_0000_0000_0000_0000_0000) by (nonlinear_arith)
            requires
                -0x8000_0000_0000_0000 <= a <= 0x7fff_ffff_ffff_ffff,
                -0x8000_0000_0000_0000 <= b <= 0x7fff_ffff_ffff_ffff,
        ;
        let s = a * b;
        s < i64::MIN as i128 || s > i64::MAX as i128
    } else if str_eq(op, "Divide") {
        x == i64::MIN && y == -1
    } else {
        false
    }
}

/// Whether folding the right-hand side would overflow `i64`.
pub fn rvalue_overflow_check(rvalue: &Rvalue) -> (r: bool)
    ensures
        r == rvalue_overflows(*rvalue),
{
    match rvalue {
        Rvalue::BinaryOp { op, left: Operand::Constant(l), right: Operand::Constant(r) } => {
            match (&l.value, &r.value) {
                (ConstantValue::Integer(a), ConstantValue::Integer(b)) => {
                    match (parse_i64(a.as_str()), parse_i64(b.as_str())) {
                        (Some(x), Some(y)) => integer_op_overflows(op.as_str(), x, y),
                        _ => false,
                    }
                },
                _ => false,
            }
        },
        _ => false,
    }
}

/// Records what an assignment leaves in its place: the constant for a whole local, and
/// nothing known for a part of one.
fn update_place(place: &Place, constant: Option<Constant>, env: &mut ConstantEnv)
    requires
        place.local.0 < old(env)@.len(),
    ensures
        final(env)@ == old(env)@.update(place.local.0 as int, if place.projection@.len() == 0 { constant } else { None }),
{
    let known = if place.projection.len() == 0 { constant } else { None };
    env.set(place.local.0, known);
}

/// The constant an assignment of the right-hand side leaves in a whole local.
pub open spec fn assigned_constant(v: Rvalue) -> Option<Constant> {
    match v {
        Rvalue::Use(Operand::Constant(c)) => Some(c),
        _ => None,
    }
}

/// Whether `after` is `before` with slot `l` set to a copy of `x`.
pub open spec fn env_set(before: Seq<Option<Constant>>, after: Seq<Option<Constant>>, l: int, x: Option<Constant>) -> bool {
    &&& after.len() == before.len()
    &&& 0 <= l < before.len()
    &&& forall|i: int| 0 <= i < before.len() && i != l ==> after[i] == before[i]
    &&& copied_constant(after[l], x)
}

/// Whether `after` is `before` folded with what `env0` knows, leaving `env1` known: an
/// assignment's right-hand side has its reads rewritten, then is folded unless that would
/// overflow, and its local then holds the constant it was given, if any; a statement that
/// starts, ends or drops a local forgets it.
pub open spec fn statement_env_folded(
    before: Statement,
    after: Statement,
    env0: Seq<Option<Constant>>,
    env1: Seq<Option<Constant>>,
) -> bool {
    &&& after.span == before.span
    &&& match before.kind {
        StatementKind::Assign(place, value) => match after.kind {
            StatementKind::Assign(q, v) => q == place && exists|rw: Rvalue| #[trigger] rvalue_rewritten(value, rw, env0) && if rvalue_overflows(rw) {
                v == rw && env_set(env0, env1, place.local.0 as int, None)
            } else {
                folded(rw, v) && env_set(
                    env0,
                    env1,
                    place.local.0 as int,
                    if place.projection@.len() == 0 { assigned_constant(v) } else { None },
                )
            },
            _ => false,
        },
        StatementKind::StorageLive(l) => after.kind == before.kind && env_set(env0, env1, l.0 as int, None),
        StatementKind::StorageDead(l) => after.kind == before.kind && env_set(env0, env1, l.0 as int, None),
        StatementKind::Drop(l) => after.kind == before.kind && env_set(env0, env1, l.0 as int, None),
        StatementKind::Nop => after.kind == before.kind && env1 == env0,
    }
}

/// Folds one statement with what the environment knows, and updates the environment.
fn fold_statement_with_env(statement: Statement, env: &mut ConstantEnv) -> (r: Statement)
    requires
        match statement_local(statement) {
            Some(l) => l.0 < old(env)@.len(),
            None => true,
        },
    ensures
        statement_refined(statement, r),
        final(env)@.len() == old(env)@.len(),
        statement_env_folded(statement, r, old(env)@, final(env)@),
{
    let ghost env0 = env@;
    let Statement { kind, span } = statement;
    match kind {
        StatementKind::Assign(place, value) => {
            let rewritten = rewrite_rvalue(value, env);
            let ghost rw = rewritten;
            if rvalue_overflow_check(&rewritten) {
                update_place(&place, None, env);
                proof {
                    assert(rvalue_rewritten(value, rw, env0));
                }
                Statement { kind: StatementKind::Assign(place, rewritten), span }
            } else {
                let result = fold_rvalue(rewritten);
                let constant = match &result {
                    Rvalue::Use(Operand::Constant(c)) => Some(copy_constant(c)),
                    _ => None,
                };
                update_place(&place, constant, env);
                proof {
                    assert(rvalue_rewritten(value, rw, env0));
                    assert(copied_constant(constant, assigned_constant(result)));
                }
                Statement { kind: StatementKind::Assign(place, result), span }
            }
        },
        StatementKind::StorageLive(local) => {
            env.set(local.0, None);
            Statement { kind: StatementKind::StorageLive(local), span }
        },
        StatementKind::StorageDead(local) => {
            env.set(local.0, None);
            Statement { kind: StatementKind::StorageDead(local), span }
        },
        StatementKind::Drop(local) => {
            env.set(local.0, None);
            Statement { kind: StatementKind::Drop(local), span }
        },
        StatementKind::Nop => Statement { kind: StatementKind::Nop, span },
    }
}

/// The boolean an operand holds, as a constant or by the environment, if it is one.
pub open spec fn known_bool(operand: Operand, env: Seq<Option<Constant>>) -> Option<bool> {
    let c = match operand {
        Operand::Constant(c) => Some(c),
        Operand::Copy(p) | Operand::Move(p) => place_known(p, env),
    };
    match c {
        Some(k) => match k.value {
            ConstantValue::Bool(b) => Some(b),
            _ => None,
        },
        None => None,
    }
}

/// Whether `after` is the terminator `before` with its operands rewritten by the
/// environment, where a branch on a known boolean became a jump to the chosen target.
pub open spec fn terminator_env_folded(before: TerminatorKind, after: TerminatorKind, env: Seq<Option<Constant>>) -> bool {
    match before {
        TerminatorKind::Branch { condition, then_bb, else_bb } => match known_bool(condition, env) {
            Some(b) => after == TerminatorKind::Goto { target: if b { then_bb } else { else_bb } },
            None => match after {
                TerminatorKind::Branch { condition: c, then_bb: t, else_bb: e } => t == then_bb && e == else_bb
                    && operand_rewritten(condition, c, env),
                _ => false,
            },
        },
        TerminatorKind::Match { discriminant, arms, otherwise } => match after {
            TerminatorKind::Match { discriminant: d, arms: a, otherwise: o } => a == arms && o == otherwise
                && operand_rewritten(discriminant, d, env),
            _ => false,
        },
        TerminatorKind::Call { callee, args, destination, target } => match after {
            TerminatorKind::Call { callee: c, args: a, destination: d, target: t } => d == destination && t == target
                && operand_rewritten(callee, c, env) && operands_rewritten(args@, a@, env),
            _ => false,
        },
        TerminatorKind::Try { operand, ok_local, err_local, ok_target, err_target } => match after {
            TerminatorKind::Try { operand: o, ok_local: ol, err_local: el, ok_target: ot, err_target: et } => ol == ok_local
                && el == err_local && ot == ok_target && et == err_target && operand_rewritten(operand, o, env),
            _ => false,
        },
        _ => after == before,
    }
}

/// Rewrites a terminator's operands; a branch on a known boolean becomes a jump.
fn fold_terminator(terminator: TerminatorKind, env: &ConstantEnv) -> (r: TerminatorKind)
    ensures
        terminator_refined(terminator, r),
        terminator_env_folded(terminator, r, env@),
{
    match terminator {
        TerminatorKind::Branch { condition, then_bb, else_bb } => {
            let condition = rewrite_operand(condition, env);
            let chosen = match &condition {
                Operand::Constant(c) => match &c.value {
                    ConstantValue::Bool(b) => Some(if *b { then_bb } else { else_bb }),
                    _ => None,
                },
                _ => None,
            };
            match chosen {
                Some(target) => TerminatorKind::Goto { target },
                None => TerminatorKind::Branch { condition, then_bb, else_bb },
            }
        },
        TerminatorKind::Match { discriminant, arms, otherwise } => {
            TerminatorKind::Match { discriminant: rewrite_operand(discriminant, env), arms, otherwise }
        },
        TerminatorKind::Call { callee, args, destination, target } => TerminatorKind::Call {
            callee: rewrite_operand(callee, env),
            args: rewrite_operands(args, env),
            destination,
            target,
        },
        TerminatorKind::Try { operand, ok_local, err_local, ok_target, err_target } => TerminatorKind::Try {
            operand: rewrite_operand(operand, env),
            ok_local,
            err_local,
            ok_target,
            err_target,
        },
        other => other,
    }
}

/// Whether `after` is `before` folded statement by statement from what `env0` knows, each
/// with what the ones before it left known, ending with `env1` known, and the terminator
/// folded with `env1`.
pub open spec fn block_env_folded(
    before: BasicBlockData,
    after: BasicBlockData,
    env0: Seq<Option<Constant>>,
    env1: Seq<Option<Constant>>,
) -> bool {
    let n = before.statements@.len();
    &&& after.id == before.id
    &&& after.statements@.len() == n
    &&& terminator_env_folded(before.terminator, after.terminator, env1)
    &&& exists|envs: Seq<Seq<Option<Constant>>>| {
        &&& envs.len() == n + 1
        &&& envs[0] == env0
        &&& envs[n as int] == env1
        &&& forall|i: int| 0 <= i < n ==> #[trigger] statement_env_folded(
            before.statements@[i],
            after.statements@[i],
            envs[i],
            envs[i + 1],
        )
    }
}

/// Folds a block's statements in order with what the environment knows on entry, then its
/// terminator; the environment ends as what is known on exit.
fn fold_block_with_env(block: BasicBlockData, env: &mut ConstantEnv) -> (r: BasicBlockData)
    requires
        block_locals_in_range(block, old(env)@.len()),
    ensures
        block_refined(block, r),
        final(env)@.len() == old(env)@.len(),
        block_env_folded(block, r, old(env)@, final(env)@),
{
    let ghost env0 = env@;
    let BasicBlockData { id, statements, terminator } = block;
    let ghost before = statements@;
    let ghost n = before.len();
    let ghost len = env@.len();
    let mut pending = statements;
    let mut done: Vec<Statement> = Vec::new();
    let ghost mut envs: Seq<Seq<Option<Constant>>> = seq![env0];
    while pending.len() > 0
        invariant
            done@.len() + pending@.len() == n,
            before.len() == n,
            env@.len() == len,
            pending@ == before.subrange(done@.len() as int, n as int),
            forall|i: int| 0 <= i < before.len() ==> match #[trigger] statement_local(before[i]) {
                Some(l) => l.0 < len,
                None => true,
            },
            forall|i: int| 0 <= i < done@.len() ==> #[trigger] statement_refined(before[i], done@[i]),
            envs.len() == done@.len() + 1,
            envs[0] == env0,
            envs.last() == env@,
            forall|i: int| 0 <= i < done@.len() ==> #[trigger] statement_env_folded(before[i], done@[i], envs[i], envs[i + 1]),
        decreases pending@.len(),
    {
        let ghost k = done@.len() as int;
        let statement = pending.remove(0);
        proof {
            assert(statement == before[k]);
            assert(pending@ =~= before.subrange(k + 1, n as int));
            assert(match statement_local(before[k]) { Some(l) => l.0 < len, None => true });
        }
        let ghost envs0 = envs;
        let ghost done0 = done@;
        let folded_statement = fold_statement_with_env(statement, env);
        done.push(folded_statement);
        proof {
            envs = envs.push(env@);
            assert forall|i: int| 0 <= i < done@.len() implies #[trigger] statement_env_folded(before[i], done@[i], envs[i], envs[i + 1]) by {
                if i < k {
                    assert(done@[i] == done0[i]);
                    assert(envs[i] == envs0[i] && envs[i + 1] == envs0[i + 1]);
                } else {
                    assert(envs[i] == envs0.last());
                }
            }
        }
    }
    let terminator = fold_terminator(terminator, env);
    proof {
        assert(forall|i: int| 0 <= i < n ==> #[trigger] statement_env_folded(before[i], done@[i], envs[i], envs[i + 1]));
    }
    BasicBlockData { id, statements: done, terminator }
}

pub proof fn lemma_refined_locals(a: BasicBlockData, c: BasicBlockData, n: nat)
    requires
        block_refined(a, c),
        block_locals_in_range(a, n),
    ensures
        block_locals_in_range(c, n),
{
    assert forall|i: int| 0 <= i < c.statements@.len() implies match #[trigger] statement_local(c.statements@[i]) {
        Some(l) => l.0 < n,
        None => true,
    } by {
        assert(statement_refined(a.statements@[i], c.statements@[i]));
        assert(match statement_local(a.statements@[i]) { Some(l) => l.0 < n, None => true });
    }
}

/// How many locals the environment knows a constant for.
pub open spec fn count_known(env: Seq<Option<Constant>>) -> nat
    decreases env.len(),
{
    if env.len() == 0 {
        0
    } else {
        count_known(env.drop_last()) + if env.last() is Some { 1nat } else { 0nat }
    }
}

/// What a block's entry environment can still lose: everything while it is unset, then
/// each known constant.
pub open spec fn slot_potential(slot: Option<ConstantEnv>, n: nat) -> nat {
    match slot {
        None => n + 1,
        Some(e) => count_known(e@),
    }
}

pub open spec fn total_potential(slots: Seq<Option<ConstantEnv>>, n: nat) -> nat
    decreases slots.len(),
{
    if slots.len() == 0 {
        0
    } else {
        total_potential(slots.drop_last(), n) + slot_potential(slots.last(), n)
    }
}

proof fn lemma_count_known_bound(env: Seq<Option<Constant>>)
    ensures
        count_known(env) <= env.len(),
    decreases env.len(),
{
    if env.len() > 0 {
        lemma_count_known_bound(env.drop_last());
    }
}

proof fn lemma_total_update(slots: Seq<Option<ConstantEnv>>, i: int, new: Option<ConstantEnv>, n: nat)
    requires
        0 <= i < slots.len(),
    ensures
        total_potential(slots.update(i, new), n) + slot_potential(slots[i], n) == total_potential(slots, n)
            + slot_potential(new, n),
    decreases slots.len(),
{
    let u = slots.update(i, new);
    if i == slots.len() - 1 {
        assert(u.drop_last() =~= slots.drop_last());
    } else {
        assert(u.drop_last() =~= slots.drop_last().update(i, new));
        lemma_total_update(slots.drop_last(), i, new, n);
    }
}

/// Whether two constant values hold the same thing.
fn value_eq(a: &ConstantValue, b: &ConstantValue) -> (r: bool)
    ensures
        r == (value_view(*a) == value_view(*b)),
{
    match (a, b) {
        (ConstantValue::Unit, ConstantValue::Unit) => true,
        (ConstantValue::Integer(x), ConstantValue::Integer(y)) => str_eq(x.as_str(), y.as_str()),
        (ConstantValue::Float(x), ConstantValue::Float(y)) => str_eq(x.as_str(), y.as_str()),
        (ConstantValue::String(x), ConstantValue::String(y)) => str_eq(x.as_str(), y.as_str()),
        (ConstantValue::Bool(x), ConstantValue::Bool(y)) => *x == *y,
        (ConstantValue::Function(x), ConstantValue::Function(y)) => str_eq(x.as_str(), y.as_str()),
        _ => false,
    }
}

/// Whether two constants have the same type and value.
fn constants_equal(a: &Constant, b: &Constant) -> (r: bool)
    ensures
        r == (same_type(a.ty, b.ty) && value_view(a.value) == value_view(b.value)),
{
    a.ty.same_as(&b.ty) && value_eq(&a.value, &b.value)
}

/// A copy of an environment.
fn copy_env(env: &ConstantEnv) -> (r: ConstantEnv)
    ensures
        envs_match(r@, env@),
{
    let mut r: ConstantEnv = Vec::new();
    let mut i: usize = 0;
    while i < env.len()
        invariant
            i <= env@.len(),
            r@.len() == i,
            forall|j: int| 0 <= j < i ==> #[trigger] copied_constant(r@[j], env@[j]),
        decreases env@.len() - i,
    {
        match &env[i] {
            Some(c) => r.push(Some(copy_constant(c))),
            None => r.push(None),
        }
        i += 1;
    }
    r
}

/// Merges what a predecessor passes on into a block's entry environment: a first
/// environment is taken as it is, and after that a local stays known only while every
/// predecessor agrees on it. Gives the new entry environment when it changed.
/// Whether two known constants agree: the same type and value.
pub open spec fn agreed(a: Option<Constant>, b: Option<Constant>) -> bool {
    match (a, b) {
        (Some(c), Some(d)) => same_type(c.ty, d.ty) && value_view(c.value) == value_view(d.value),
        _ => false,
    }
}

/// What stays known when a predecessor's environment meets the one a block has: the
/// constants both agree on.
pub open spec fn env_meet(existing: Seq<Option<Constant>>, incoming: Seq<Option<Constant>>) -> Seq<Option<Constant>> {
    Seq::new(existing.len(), |k: int| if agreed(existing[k], incoming[k]) { existing[k] } else { None })
}

/// Whether the meet loses a constant the block's environment knew.
pub open spec fn env_loses(existing: Seq<Option<Constant>>, incoming: Seq<Option<Constant>>) -> bool {
    exists|k: int| 0 <= k < existing.len() && existing[k] is Some && !#[trigger] agreed(existing[k], incoming[k])
}

fn merge_env(slot: &Option<ConstantEnv>, incoming: &ConstantEnv, n: usize) -> (r: Option<ConstantEnv>)
    requires
        incoming@.len() == n,
        slot matches Some(e) ==> e@.len() == n,
    ensures
        r matches Some(e) ==> e@.len() == n && count_known(e@) < slot_potential(*slot, n as nat),
        match *slot {
            None => r matches Some(e) && envs_match(e@, incoming@),
            Some(existing) => (r is Some <==> env_loses(existing@, incoming@)) && (r matches Some(e) ==> envs_match(
                e@,
                env_meet(existing@, incoming@),
            )),
        },
{
    match slot {
        None => {
            let e = copy_env(incoming);
            proof {
                lemma_count_known_bound(e@);
            }
            Some(e)
        },
        Some(existing) => {
            let mut merged: ConstantEnv = Vec::new();
            let mut changed = false;
            let mut k: usize = 0;
            while k < n
                invariant
                    existing@.len() == n,
                    incoming@.len() == n,
                    k <= n,
                    merged@.len() == k,
                    count_known(merged@) + (if changed { 1nat } else { 0nat }) <= count_known(existing@.take(k as int)),
                    forall|j: int| 0 <= j < k ==> #[trigger] copied_constant(merged@[j], env_meet(existing@, incoming@)[j]),
                    changed == exists|j: int| 0 <= j < k && existing@[j] is Some && !#[trigger] agreed(existing@[j], incoming@[j]),
                decreases n - k,
            {
                let ghost m0 = merged@;
                let keep = match (&existing[k], &incoming[k]) {
                    (Some(c), Some(d)) => constants_equal(c, d),
                    _ => false,
                };
                match &existing[k] {
                    Some(c) => {
                        if keep {
                            merged.push(Some(copy_constant(c)));
                        } else {
                            merged.push(None);
                            changed = true;
                        }
                    },
                    None => merged.push(None),
                }
                proof {
                    assert(merged@.drop_last() =~= m0);
                    assert(existing@.take(k + 1).drop_last() =~= existing@.take(k as int));
                    assert forall|j: int| 0 <= j < k + 1 implies #[trigger] copied_constant(merged@[j], env_meet(existing@, incoming@)[j]) by {
                        if j < k {
                            assert(merged@[j] == m0[j]);
                        }
                    }
                    if existing@[k as int] is Some && !agreed(existing@[k as int], incoming@[k as int]) {
                        assert(changed);
                    }
                    if changed {
                        if !(existing@[k as int] is Some && !agreed(existing@[k as int], incoming@[k as int])) {
                            let j = choose|j: int| 0 <= j < k + 1 && existing@[j] is Some && !#[trigger] agreed(existing@[j], incoming@[j]);
                            assert(j < k);
                        }
                    }
                }
                k += 1;
            }
            proof {
                assert(existing@.take(n as int) =~= existing@);
            }
            if changed {
                Some(merged)
            } else {
                None
            }
        },
    }
}

/// Whether `after` is `before` with each block refined, and all else the same.
pub open spec fn function_refined(before: MirFunction, after: MirFunction) -> bool {
    &&& after.receiver == before.receiver
    &&& after.name == before.name
    &&& after.signature == before.signature
    &&& after.is_declaration == before.is_declaration
    &&& after.locals == before.locals
    &&& after.entry == before.entry
    &&& after.return_local == before.return_local
    &&& after.span == before.span
    &&& after.blocks@.len() == before.blocks@.len()
    &&& forall|b: int| 0 <= b < before.blocks@.len() ==> #[trigger] block_refined(before.blocks@[b], after.blocks@[b])
}

/// The function can be folded: the entry and every target of a block the entry reaches
/// are blocks, and such blocks only write and end locals the function declares.
pub open spec fn foldable(f: MirFunction) -> bool {
    &&& reachable_targets_in_range(f.blocks@, f.entry.0 as int)
    &&& forall|i: int| 0 <= i < f.blocks@.len() && #[trigger] reachable(f.blocks@, f.entry.0 as int, i)
        ==> block_locals_in_range(f.blocks@[i], f.locals@.len())
}

/// Whether `after` is `before` with blocks refined, each block unchanged or folded one or
/// more times with what environments know.
pub open spec fn function_folded(before: MirFunction, after: MirFunction) -> bool {
    &&& function_refined(before, after)
    &&& forall|b: int| 0 <= b < before.blocks@.len() ==> after.blocks@[b] == before.blocks@[b]
        || #[trigger] env_folded_from(before.blocks@[b], after.blocks@[b])
}

/// Whether `after` is `before` folded `k` times in a row, each time with what some
/// environment knows on entry.
pub open spec fn folded_times(before: BasicBlockData, after: BasicBlockData, k: nat) -> bool
    decreases k,
{
    if k == 0 {
        after == before
    } else {
        exists|mid: BasicBlockData, env0: Seq<Option<Constant>>, env1: Seq<Option<Constant>>|
            folded_times(before, mid, (k - 1) as nat) && #[trigger] block_env_folded(mid, after, env0, env1)
    }
}

/// Whether `after` is `before` folded one or more times in a row.
pub open spec fn env_folded_from(before: BasicBlockData, after: BasicBlockData) -> bool {
    exists|k: nat| k > 0 && #[trigger] folded_times(before, after, k)
}

/// Propagates constants along the control-flow graph: each block the entry reaches is
/// folded with what all its predecessors agree on, until nothing changes.
pub fn fold_function_constants(function: &mut MirFunction)
    requires
        foldable(*old(function)),
    ensures
        function_refined(*old(function), *final(function)),
        env_folded_from(old(function).blocks@[old(function).entry.0 as int], final(function).blocks@[old(function).entry.0 as int]),
        forall|b: int| 0 <= b < old(function).blocks@.len() ==> final(function).blocks@[b] == old(function).blocks@[b]
            || #[trigger] env_folded_from(old(function).blocks@[b], final(function).blocks@[b]),
{
    let ghost orig = function.blocks@;
    let ghost e = function.entry.0 as int;
    let n = function.locals.len();
    let nb = function.blocks.len();
    let entry = function.entry.0;
    let mut blocks: Vec<BasicBlockData> = Vec::new();
    std::mem::swap(&mut blocks, &mut function.blocks);
    let mut incoming: Vec<Option<ConstantEnv>> = Vec::new();
    let mut i: usize = 0;
    while i < nb
        invariant
            i <= nb,
            incoming@.len() == i,
            forall|j: int| 0 <= j < i ==> #[trigger] incoming@[j] is None,
        decreases nb - i,
    {
        incoming.push(None);
        i += 1;
    }
    let mut start: ConstantEnv = Vec::new();
    let mut k: usize = 0;
    while k < n
        invariant
            k <= n,
            start@.len() == k,
        decreases n - k,
    {
        start.push(None);
        k += 1;
    }
    incoming.set(entry, Some(start));
    let mut queue: Vec<usize> = vec![entry];
    proof {
        lemma_reachable_self(orig, e);
        assert forall|b: int| 0 <= b < nb implies #[trigger] block_refined(orig[b], blocks@[b]) by {
            assert forall|i: int| 0 <= i < orig[b].statements@.len() implies #[trigger] statement_refined(
                orig[b].statements@[i],
                blocks@[b].statements@[i],
            ) by {}
        }
    }
    let ghost mut entry_done = false;
    proof {
        assert(blocks@ == orig);
    }
    while queue.len() > 0
        invariant
            orig.len() == nb,
            0 <= e < nb,
            entry == e,
            entry_done || (queue@ == seq![entry] && incoming@[e] is Some),
            entry_done ==> env_folded_from(orig[e], blocks@[e]),
            forall|b: int| 0 <= b < nb ==> blocks@[b] == orig[b] || #[trigger] env_folded_from(orig[b], blocks@[b]),
            reachable_targets_in_range(orig, e),
            forall|i: int| 0 <= i < nb && #[trigger] reachable(orig, e, i) ==> block_locals_in_range(orig[i], n as nat),
            blocks@.len() == nb,
            forall|b: int| 0 <= b < nb ==> #[trigger] block_refined(orig[b], blocks@[b]),
            incoming@.len() == nb,
            forall|s: int| 0 <= s < nb ==> (#[trigger] incoming@[s] matches Some(env) ==> env@.len() == n),
            forall|j: int| 0 <= j < queue@.len() ==> #[trigger] queue@[j] < nb && reachable(orig, e, queue@[j] as int),
        decreases total_potential(incoming@, n as nat), queue@.len(),
    {
        let ghost total0 = total_potential(incoming@, n as nat);
        let ghost q0 = queue@.len();
        let ghost q_before = queue@;
        let b = queue.remove(0);
        proof {
            assert(b == q_before[0]);
            assert forall|j: int| 0 <= j < queue@.len() implies #[trigger] queue@[j] < nb && reachable(orig, e, queue@[j] as int) by {
                assert(queue@[j] == q_before[j + 1]);
            }
        }
        let mut env = match &incoming[b] {
            Some(env) => copy_env(env),
            None => continue,
        };
        let ghost bs_before = blocks@;
        let block = blocks.remove(b);
        proof {
            assert(block == bs_before[b as int]);
            lemma_refined_locals(orig[b as int], block, n as nat);
        }
        let ghost env_in = env@;
        let folded_block = fold_block_with_env(block, &mut env);
        proof {
            lemma_refined_trans(orig[b as int], bs_before[b as int], folded_block);
            assert(block_env_folded(bs_before[b as int], folded_block, env_in, env@));
            assert(bs_before[b as int] == orig[b as int] || env_folded_from(orig[b as int], bs_before[b as int]));
            let k: nat = if bs_before[b as int] == orig[b as int] {
                0
            } else {
                choose|k: nat| k > 0 && #[trigger] folded_times(orig[b as int], bs_before[b as int], k)
            };
            assert(folded_times(orig[b as int], bs_before[b as int], k));
            assert(folded_times(orig[b as int], folded_block, k + 1));
            assert(env_folded_from(orig[b as int], folded_block));
        }
        blocks.insert(b, folded_block);
        proof {
            assert(blocks@ =~= bs_before.update(b as int, folded_block));
            assert forall|x: int| 0 <= x < nb implies #[trigger] block_refined(orig[x], blocks@[x]) by {
                if x != b as int {
                    assert(blocks@[x] == bs_before[x]);
                }
            }
            assert forall|x: int| 0 <= x < nb implies blocks@[x] == orig[x] || #[trigger] env_folded_from(orig[x], blocks@[x]) by {
                if x != b as int {
                    assert(blocks@[x] == bs_before[x]);
                }
            }
            if b == entry {
                entry_done = true;
            }
        }
        let succ = successor_blocks(&blocks[b].terminator);
        let ghost s = successors(blocks@[b as int].terminator);
        proof {
            lemma_refined_successors(orig[b as int].terminator, blocks@[b as int].terminator);
            assert(targets_in_range(orig, b as int));
        }
        let ghost pushed: nat = 0;
        let mut t: usize = 0;
        while t < succ.len()
            invariant
                orig.len() == nb,
                0 <= e < nb,
                b < nb,
                reachable(orig, e, b as int),
                targets_in_range(orig, b as int),
                succ@ == s,
                forall|k: int| 0 <= k < s.len() ==> successors(orig[b as int].terminator).contains(#[trigger] s[k]),
                env@.len() == n,
                t <= s.len(),
                incoming@.len() == nb,
                forall|x: int| 0 <= x < nb ==> (#[trigger] incoming@[x] matches Some(env) ==> env@.len() == n),
                forall|j: int| 0 <= j < queue@.len() ==> #[trigger] queue@[j] < nb && reachable(orig, e, queue@[j] as int),
                total_potential(incoming@, n as nat) + pushed <= total0,
                queue@.len() == q0 - 1 + pushed,
            decreases s.len() - t,
        {
            let target = succ[t].0;
            proof {
                assert(successors(orig[b as int].terminator).contains(s[t as int]));
                let kk = choose|kk: int| 0 <= kk < successors(orig[b as int].terminator).len()
                    && successors(orig[b as int].terminator)[kk] == s[t as int];
                assert(successors(orig[b as int].terminator)[kk].0 < orig.len());
                assert(edge(orig, b as int, target as int));
                lemma_reachable_step(orig, e, b as int, target as int);
            }
            match merge_env(&incoming[target], &env, n) {
                Some(merged) => {
                    let ghost before = incoming@;
                    incoming.set(target, Some(merged));
                    queue.push(target);
                    proof {
                        lemma_total_update(before, target as int, Some(merged), n as nat);
                        pushed = pushed + 1;
                    }
                },
                None => {},
            }
            t += 1;
        }
    }
    function.blocks = blocks;
}

} // verus!
