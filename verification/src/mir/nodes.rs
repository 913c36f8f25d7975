//! The nodes of the mid-level IR.

use vstd::prelude::*;
use crate::ast::span::Span;
use crate::text::{chars_of, owned, push_str_chars, string_from_chars};
use crate::types::{FunctionSignature, Type};

verus! {

#[derive(Debug, Clone, Copy, PartialEq, Eq, Hash, Structural)]
pub struct BasicBlockId(pub usize);

#[derive(Debug, Clone, Copy, PartialEq, Eq, Hash, Structural)]
pub struct LocalId(pub usize);

/// The value of a constant operand, with numbers kept as their source text.
#[derive(Debug, Clone, PartialEq, Eq)]
pub enum ConstantValue {
    Unit,
    Integer(String),
    Float(String),
    String(String),
    Bool(bool),
    Function(String),
}

#[derive(Debug, PartialEq, Eq)]
pub struct MirProgram {
    pub functions: Vec<MirFunction>,
    pub span: Span,
}

#[derive(Debug, PartialEq, Eq)]
pub struct MirFunction {
    pub receiver: Option<String>,
    pub name: String,
    pub signature: FunctionSignature,
    pub is_declaration: bool,
    pub locals: Vec<LocalDecl>,
    pub blocks: Vec<BasicBlockData>,
    pub entry: BasicBlockId,
    pub return_local: LocalId,
    pub span: Span,
}

#[derive(Debug, PartialEq, Eq)]
pub struct LocalDecl {
    pub id: LocalId,
    pub name: String,
    pub ty: Type,
    pub mutable: bool,
    pub temp: bool,
    pub span: Span,
}

#[derive(Debug, PartialEq, Eq)]
pub struct BasicBlockData {
    pub id: BasicBlockId,
    pub statements: Vec<Statement>,
    pub terminator: TerminatorKind,
}

#[derive(Debug, PartialEq, Eq)]
pub struct Statement {
    pub kind: StatementKind,
    pub span: Span,
}

#[derive(Debug, PartialEq, Eq)]
pub enum StatementKind {
    StorageLive(LocalId),
    StorageDead(LocalId),
    Assign(Place, Rvalue),
    Drop(LocalId),
    Nop,
}

/// A local, or a part of it reached through fields and indices.
#[derive(Debug, PartialEq, Eq)]
pub struct Place {
    pub local: LocalId,
    pub projection: Vec<ProjectionElem>,
}

impl Place {
    /// The whole local.
    pub fn new(local: LocalId) -> (p: Self)
        ensures
            p.local == local,
            p.projection@.len() == 0,
    {
        Place { local, projection: Vec::new() }
    }
}

#[derive(Debug, PartialEq, Eq)]
pub enum ProjectionElem {
    Field(String),
    Index(Operand),
}

#[derive(Debug, PartialEq, Eq)]
pub enum Rvalue {
    Use(Operand),
    UnaryOp { op: String, operand: Operand },
    BinaryOp { op: String, left: Operand, right: Operand },
    AggregateStruct { path: Vec<String>, fields: Vec<(String, Operand)> },
    AggregateArray { elements: Vec<Operand> },
    RepeatArray { value: Operand, length: usize },
    ResultOk(Operand),
    ResultErr(Operand),
}

#[derive(Debug, PartialEq, Eq)]
pub enum Operand {
    Copy(Place),
    Move(Place),
    Constant(Constant),
}

#[derive(Debug, PartialEq, Eq)]
pub struct Constant {
    pub ty: Type,
    pub value: ConstantValue,
}

#[derive(Debug, PartialEq, Eq)]
pub enum TerminatorKind {
    Goto { target: BasicBlockId },
    Branch { condition: Operand, then_bb: BasicBlockId, else_bb: BasicBlockId },
    Match { discriminant: Operand, arms: Vec<MatchTarget>, otherwise: BasicBlockId },
    Call { callee: Operand, args: Vec<Operand>, destination: Option<Place>, target: BasicBlockId },
    IterNext { iterator: Place, binding: LocalId, loop_body: BasicBlockId, exit: BasicBlockId },
    Try { operand: Operand, ok_local: LocalId, err_local: LocalId, ok_target: BasicBlockId, err_target: BasicBlockId },
    Return,
    Unreachable,
}

#[derive(Debug, Clone, PartialEq, Eq)]
pub struct MatchTarget {
    pub pattern: String,
    pub target: BasicBlockId,
}

/// The name a function is called by: `receiver.name` for methods.
pub open spec fn callable_text(f: MirFunction) -> Seq<char> {
    match f.receiver {
        Some(r) => r@ + "."@ + f.name@,
        None => f.name@,
    }
}

pub fn callable_name(function: &MirFunction) -> (s: String)
    ensures
        s@ == callable_text(*function),
{
    match &function.receiver {
        Some(r) => {
            let mut text = chars_of(r.as_str());
            push_str_chars(&mut text, ".");
            push_str_chars(&mut text, function.name.as_str());
            string_from_chars(&text)
        },
        None => owned(function.name.as_str()),
    }
}

/// Whether `a` is a copy of `b`: the same type and value.
pub open spec fn same_constant(a: Constant, b: Constant) -> bool {
    crate::types::same_type(a.ty, b.ty) && a.value == b.value
}

/// Whether operand `a` is a copy of `b`.
pub open spec fn same_operand(a: Operand, b: Operand) -> bool
    decreases a, 0nat,
{
    match (a, b) {
        (Operand::Copy(p), Operand::Copy(q)) => same_place(p, q),
        (Operand::Move(p), Operand::Move(q)) => same_place(p, q),
        (Operand::Constant(c), Operand::Constant(d)) => same_constant(c, d),
        _ => false,
    }
}

/// Whether place `a` is a copy of `b`.
pub open spec fn same_place(a: Place, b: Place) -> bool
    decreases a, 0nat,
{
    &&& a.local == b.local
    &&& a.projection@.len() == b.projection@.len()
    &&& same_projections(a.projection@, b.projection@, a.projection@.len() as int)
}

/// Whether the first `n` projections of `xs` are copies of those of `ys`.
pub open spec fn same_projections(xs: Seq<ProjectionElem>, ys: Seq<ProjectionElem>, n: int) -> bool
    decreases xs, 1nat, n,
{
    if n <= 0 || n > xs.len() || n > ys.len() {
        n <= 0
    } else {
        same_projections(xs, ys, n - 1) && same_projection(xs[n - 1], ys[n - 1])
    }
}

pub open spec fn same_projection(a: ProjectionElem, b: ProjectionElem) -> bool
    decreases a, 0nat,
{
    match (a, b) {
        (ProjectionElem::Field(x), ProjectionElem::Field(y)) => x == y,
        (ProjectionElem::Index(x), ProjectionElem::Index(y)) => same_operand(x, y),
        _ => false,
    }
}

pub open spec fn same_operands(xs: Seq<Operand>, ys: Seq<Operand>) -> bool {
    &&& xs.len() == ys.len()
    &&& forall|i: int| 0 <= i < xs.len() ==> #[trigger] same_operand(xs[i], ys[i])
}

/// Whether a named field operand is a copy of another.
pub open spec fn same_field(a: (String, Operand), b: (String, Operand)) -> bool {
    a.0 == b.0 && same_operand(a.1, b.1)
}

/// Whether right-hand side `a` is a copy of `b`.
pub open spec fn same_rvalue(a: Rvalue, b: Rvalue) -> bool {
    match (a, b) {
        (Rvalue::Use(x), Rvalue::Use(y)) => same_operand(x, y),
        (Rvalue::UnaryOp { op: o1, operand: x }, Rvalue::UnaryOp { op: o2, operand: y }) => o1 == o2 && same_operand(x, y),
        (Rvalue::BinaryOp { op: o1, left: l1, right: r1 }, Rvalue::BinaryOp { op: o2, left: l2, right: r2 }) => o1 == o2
            && same_operand(l1, l2) && same_operand(r1, r2),
        (Rvalue::AggregateStruct { path: p1, fields: f1 }, Rvalue::AggregateStruct { path: p2, fields: f2 }) => {
            &&& p1@ == p2@
            &&& f1@.len() == f2@.len()
            &&& forall|i: int| 0 <= i < f1@.len() ==> #[trigger] same_field(f1@[i], f2@[i])
        },
        (Rvalue::AggregateArray { elements: e1 }, Rvalue::AggregateArray { elements: e2 }) => same_operands(e1@, e2@),
        (Rvalue::RepeatArray { value: v1, length: n1 }, Rvalue::RepeatArray { value: v2, length: n2 }) => n1 == n2
            && same_operand(v1, v2),
        (Rvalue::ResultOk(x), Rvalue::ResultOk(y)) => same_operand(x, y),
        (Rvalue::ResultErr(x), Rvalue::ResultErr(y)) => same_operand(x, y),
        _ => false,
    }
}

/// Whether an optional place is a copy of another.
pub open spec fn same_destination(a: Option<Place>, b: Option<Place>) -> bool {
    match (a, b) {
        (Some(p), Some(q)) => same_place(p, q),
        (None, None) => true,
        _ => false,
    }
}

/// Whether terminator `a` is a copy of `b`.
pub open spec fn same_terminator(a: TerminatorKind, b: TerminatorKind) -> bool {
    match (a, b) {
        (TerminatorKind::Goto { target: t1 }, TerminatorKind::Goto { target: t2 }) => t1 == t2,
        (
            TerminatorKind::Branch { condition: c1, then_bb: t1, else_bb: e1 },
            TerminatorKind::Branch { condition: c2, then_bb: t2, else_bb: e2 },
        ) => same_operand(c1, c2) && t1 == t2 && e1 == e2,
        (
            TerminatorKind::Match { discriminant: d1, arms: a1, otherwise: o1 },
            TerminatorKind::Match { discriminant: d2, arms: a2, otherwise: o2 },
        ) => same_operand(d1, d2) && a1@ == a2@ && o1 == o2,
        (
            TerminatorKind::Call { callee: c1, args: a1, destination: d1, target: t1 },
            TerminatorKind::Call { callee: c2, args: a2, destination: d2, target: t2 },
        ) => same_operand(c1, c2) && same_operands(a1@, a2@) && same_destination(d1, d2) && t1 == t2,
        (
            TerminatorKind::IterNext { iterator: i1, binding: b1, loop_body: l1, exit: x1 },
            TerminatorKind::IterNext { iterator: i2, binding: b2, loop_body: l2, exit: x2 },
        ) => same_place(i1, i2) && b1 == b2 && l1 == l2 && x1 == x2,
        (
            TerminatorKind::Try { operand: o1, ok_local: ol1, err_local: el1, ok_target: ot1, err_target: et1 },
            TerminatorKind::Try { operand: o2, ok_local: ol2, err_local: el2, ok_target: ot2, err_target: et2 },
        ) => same_operand(o1, o2) && ol1 == ol2 && el1 == el2 && ot1 == ot2 && et1 == et2,
        (TerminatorKind::Return, TerminatorKind::Return) => true,
        (TerminatorKind::Unreachable, TerminatorKind::Unreachable) => true,
        _ => false,
    }
}

/// Whether statement `a` is a copy of `b`.
pub open spec fn same_statement(a: Statement, b: Statement) -> bool {
    &&& a.span == b.span
    &&& match (a.kind, b.kind) {
        (StatementKind::Assign(p, x), StatementKind::Assign(q, y)) => same_place(p, q) && same_rvalue(x, y),
        (StatementKind::Assign(..), _) => false,
        (_, StatementKind::Assign(..)) => false,
        (k1, k2) => k1 == k2,
    }
}

/// Whether block `a` is a copy of `b`.
pub open spec fn same_block(a: BasicBlockData, b: BasicBlockData) -> bool {
    &&& a.id == b.id
    &&& a.statements@.len() == b.statements@.len()
    &&& forall|i: int| 0 <= i < a.statements@.len() ==> #[trigger] same_statement(a.statements@[i], b.statements@[i])
    &&& same_terminator(a.terminator, b.terminator)
}

pub open spec fn same_local(a: LocalDecl, b: LocalDecl) -> bool {
    &&& a.id == b.id
    &&& a.name == b.name
    &&& crate::types::same_type(a.ty, b.ty)
    &&& a.mutable == b.mutable
    &&& a.temp == b.temp
    &&& a.span == b.span
}

/// Whether function `a` is a copy of `b`.
pub open spec fn same_function(a: MirFunction, b: MirFunction) -> bool {
    &&& a.receiver == b.receiver
    &&& a.name == b.name
    &&& crate::types::same_signature(a.signature, b.signature)
    &&& a.is_declaration == b.is_declaration
    &&& a.locals@.len() == b.locals@.len()
    &&& forall|i: int| 0 <= i < a.locals@.len() ==> #[trigger] same_local(a.locals@[i], b.locals@[i])
    &&& a.blocks@.len() == b.blocks@.len()
    &&& forall|i: int| 0 <= i < a.blocks@.len() ==> #[trigger] same_block(a.blocks@[i], b.blocks@[i])
    &&& a.entry == b.entry
    &&& a.return_local == b.return_local
    &&& a.span == b.span
}

/// Whether program `a` is a copy of `b`.
pub open spec fn same_program(a: MirProgram, b: MirProgram) -> bool {
    &&& a.span == b.span
    &&& a.functions@.len() == b.functions@.len()
    &&& forall|i: int| 0 <= i < a.functions@.len() ==> #[trigger] same_function(a.functions@[i], b.functions@[i])
}

/// Extending both lists past `n` keeps their first `n` projections copies.
pub proof fn lemma_same_projections_prefix(xs: Seq<ProjectionElem>, xs2: Seq<ProjectionElem>, ys: Seq<ProjectionElem>, n: int)
    requires
        0 <= n <= xs.len() <= xs2.len(),
        forall|k: int| 0 <= k < xs.len() ==> xs2[k] == xs[k],
        same_projections(xs, ys, n),
    ensures
        same_projections(xs2, ys, n),
    decreases n,
{
    if n > 0 {
        lemma_same_projections_prefix(xs, xs2, ys, n - 1);
    }
}

} // verus!
