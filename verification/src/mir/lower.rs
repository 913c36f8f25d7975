//! Lowering the high-level IR to MIR: each function body becomes a control-flow graph of
//! basic blocks, with a local for every binding and temporary.

use vstd::prelude::*;
use crate::ast::span::Span;
use crate::hir::nodes::{
    HirBlock, HirExpr, HirExprKind, HirFunction, HirItem, HirMatchArm, HirProgram, HirStmt, HirSymbolId,
};
use crate::types::Type;
use crate::text::{chars_of, decimal_chars, push_str_chars, str_eq, string_from_chars};
use super::nodes::{
    BasicBlockData, BasicBlockId, Constant, ConstantValue, LocalDecl, LocalId, MatchTarget, MirFunction, MirProgram,
    Operand, Place, ProjectionElem, Rvalue, Statement, StatementKind, TerminatorKind,
};
use super::const_eval::{statement_local, value_view, ConstView};
use super::optimize::{successors, targets_in_range, well_formed};
use crate::codegen::lower::copy_place;

verus! {

/// A function being lowered: its locals and blocks so far, and the bindings in scope.
struct FunctionLowerer {
    locals: Vec<LocalDecl>,
    blocks: Vec<BasicBlockData>,
    scopes: Vec<Vec<(HirSymbolId, LocalId)>>,
    return_local: LocalId,
}

/// Every block is at its index, passes control only to blocks, and writes only locals.
pub open spec fn graph_ok(blocks: Seq<BasicBlockData>, n_locals: nat) -> bool {
    &&& forall|i: int| 0 <= i < blocks.len() ==> (#[trigger] blocks[i]).id.0 == i
    &&& forall|i: int| 0 <= i < blocks.len() ==> #[trigger] targets_in_range(blocks, i)
    &&& forall|i: int| 0 <= i < blocks.len() ==> super::const_eval::block_locals_in_range(#[trigger] blocks[i], n_locals)
}

/// The constant an integer or boolean literal of the type denotes.
pub open spec fn literal_view(text: Seq<char>, ty: Type) -> Option<ConstView> {
    match ty {
        Type::Int => Some(ConstView::Integer(text)),
        Type::Bool => Some(ConstView::Bool(text == "true"@)),
        _ => None,
    }
}

/// The integer or boolean literal an expression is, with the constant it denotes.
pub open spec fn literal_of(e: HirExpr) -> Option<ConstView> {
    match e.kind {
        HirExprKind::Literal(text) => literal_view(text@, e.ty),
        _ => None,
    }
}

/// Whether the operand is the constant `v`.
pub open spec fn operand_is(o: Operand, v: ConstView) -> bool {
    match o {
        Operand::Constant(c) => value_view(c.value) == v,
        _ => false,
    }
}

/// The integer or boolean literal an expression statement is.
pub open spec fn statement_literal(s: HirStmt) -> Option<ConstView> {
    match s {
        HirStmt::Expr(e) => literal_of(e),
        _ => None,
    }
}

/// A block holding one expression statement, an integer or boolean literal, as its value.
pub open spec fn literal_block(b: HirBlock) -> Option<ConstView> {
    if b.statements@.len() == 1 && !(b.ty is Unit) {
        statement_literal(b.statements@[0])
    } else {
        None
    }
}

/// An `if` with a value whose condition and arms are integer or boolean literals.
pub open spec fn literal_if(e: HirExpr) -> bool {
    match e.kind {
        HirExprKind::If { condition, then_block, else_branch } => {
            &&& !(e.ty is Unit)
            &&& literal_of(*condition) matches Some(ConstView::Bool(_))
            &&& literal_block(then_block) is Some
            &&& else_branch matches Some(x) && literal_of(*x) is Some
        },
        _ => false,
    }
}

/// Whether a `?` continues with the value at `next` on success and returns on an error.
pub open spec fn try_targets_ok(blocks: Seq<BasicBlockData>, ok_target: BasicBlockId, err_target: BasicBlockId, next: BasicBlockId) -> bool {
    &&& ok_target.0 < blocks.len()
    &&& err_target.0 < blocks.len()
    &&& blocks[ok_target.0 as int].terminator == TerminatorKind::Goto { target: next }
    &&& blocks[err_target.0 as int].terminator is Return
}

/// The boolean literal a `while` loop tests, if it tests one.
pub open spec fn while_literal(s: HirStmt) -> Option<bool> {
    match s {
        HirStmt::While(w) => match literal_of(w.condition) {
            Some(ConstView::Bool(b)) => Some(b),
            _ => None,
        },
        _ => None,
    }
}

/// The value a literal denotes.
pub open spec fn view_value(v: Option<ConstView>) -> Option<super::optimize::MirValue> {
    match v {
        Some(ConstView::Integer(t)) => match crate::text::i64_value(t) {
            Some(x) => Some(super::optimize::MirValue::Int(x as int)),
            None => None,
        },
        Some(ConstView::Bool(b)) => Some(super::optimize::MirValue::Bool(b)),
        _ => None,
    }
}

/// A binary operation, other than assignment, on two integer or boolean literals.
pub open spec fn literal_binary(e: HirExpr) -> bool {
    match e.kind {
        HirExprKind::Binary { op, left, right } => op@ != "Assign"@ && literal_of(*left) is Some && literal_of(*right) is Some,
        _ => false,
    }
}

/// What a binary operation on literals computes.
pub open spec fn literal_binary_value(e: HirExpr) -> Option<super::optimize::MirValue> {
    match e.kind {
        HirExprKind::Binary { op, left, right } => super::optimize::binary_op_value(
            op@,
            view_value(literal_of(*left)),
            view_value(literal_of(*right)),
        ),
        _ => None,
    }
}

/// The value of an `if` of literals: the then-arm's when the condition is `true`, the
/// else-arm's otherwise.
pub open spec fn literal_if_value(e: HirExpr) -> ConstView {
    match e.kind {
        HirExprKind::If { condition, then_block, else_branch } => if literal_of(*condition) == Some(ConstView::Bool(true)) {
            literal_block(then_block)->0
        } else {
            literal_of(*else_branch->0)->0
        },
        _ => ConstView::Unit,
    }
}

/// The locals' constants after statements run: an assignment of a constant to a whole local
/// records it; other statements record nothing.
pub open spec fn run_statements(ss: Seq<Statement>, env: Map<usize, ConstView>) -> Map<usize, ConstView>
    decreases ss.len(),
{
    if ss.len() == 0 {
        env
    } else {
        let before = run_statements(ss.drop_last(), env);
        match ss.last().kind {
            StatementKind::Assign(p, Rvalue::Use(Operand::Constant(c))) => if p.projection@.len() == 0 {
                before.insert(p.local.0, value_view(c.value))
            } else {
                before
            },
            _ => before,
        }
    }
}

/// Where a terminator sends control: a jump to its target, a branch on a known boolean to
/// the target it selects.
pub open spec fn next_block(t: TerminatorKind, env: Map<usize, ConstView>) -> Option<BasicBlockId> {
    match t {
        TerminatorKind::Goto { target } => Some(target),
        TerminatorKind::Branch { condition, then_bb, else_bb } => {
            let v = match condition {
                Operand::Constant(c) => Some(value_view(c.value)),
                Operand::Copy(p) | Operand::Move(p) => if p.projection@.len() == 0 && env.contains_key(p.local.0) {
                    Some(env[p.local.0])
                } else {
                    None
                },
            };
            match v {
                Some(ConstView::Bool(b)) => Some(if b { then_bb } else { else_bb }),
                _ => None,
            }
        },
        _ => None,
    }
}

/// Control leaving block `from` for at most `steps` jumps, each target's statements run:
/// the block it stops at and what the locals then hold.
pub open spec fn flow(blocks: Seq<BasicBlockData>, from: int, env: Map<usize, ConstView>, steps: nat) -> (int, Map<usize, ConstView>)
    decreases steps,
{
    if steps == 0 || !(0 <= from < blocks.len()) {
        (from, env)
    } else {
        match next_block(blocks[from].terminator, env) {
            Some(n) => if n.0 < blocks.len() {
                flow(blocks, n.0 as int, run_statements(blocks[n.0 as int].statements@, env), (steps - 1) as nat)
            } else {
                (from, env)
            },
            None => (from, env),
        }
    }
}

impl FunctionLowerer {
    spec fn wf(&self) -> bool {
        &&& graph_ok(self.blocks@, self.locals@.len())
        &&& self.blocks@.len() > 0
        &&& self.return_local.0 < self.locals@.len()
        &&& forall|s: int, k: int| 0 <= s < self.scopes@.len() && 0 <= k < self.scopes@[s]@.len() ==> (#[trigger] self.scopes@[s]@[k]).1.0
            < self.locals@.len()
    }

    /// Every block `before` had, but `current`, ends as it did.
    spec fn kept_except(&self, before: FunctionLowerer, current: int) -> bool {
        forall|i: int| 0 <= i < before.blocks@.len() && i != current ==> (#[trigger] self.blocks@[i]).terminator
            == before.blocks@[i].terminator
    }

    /// The lowerer has at least the blocks and locals `before` had.
    spec fn grows(&self, before: FunctionLowerer) -> bool {
        &&& self.blocks@.len() >= before.blocks@.len()
        &&& self.locals@.len() >= before.locals@.len()
        &&& self.return_local == before.return_local
        &&& (before.locals@.len() > 0 ==> self.locals@[0] == before.locals@[0])
    }

    fn new_block(&mut self) -> (b: BasicBlockId)
        requires
            old(self).wf(),
        ensures
            final(self).wf(),
            final(self).grows(*old(self)),
            b.0 == old(self).blocks@.len(),
            b.0 < final(self).blocks@.len(),
            final(self).blocks@[b.0 as int].terminator is Unreachable,
            final(self).blocks@[b.0 as int].statements@.len() == 0,
            final(self).blocks@.len() == old(self).blocks@.len() + 1,
            forall|i: int| 0 <= i < old(self).blocks@.len() ==> #[trigger] final(self).blocks@[i] == old(self).blocks@[i],
            final(self).locals == old(self).locals,
    {
        let id = BasicBlockId(self.blocks.len());
        let ghost before = self.blocks@;
        self.blocks.push(BasicBlockData { id, statements: Vec::new(), terminator: TerminatorKind::Unreachable });
        proof {
            let bs = self.blocks@;
            assert forall|i: int| 0 <= i < bs.len() implies #[trigger] targets_in_range(bs, i) by {
                if i < before.len() {
                    assert(bs[i] == before[i]);
                    assert(targets_in_range(before, i));
                }
            }
            assert forall|i: int| 0 <= i < bs.len() implies super::const_eval::block_locals_in_range(
                #[trigger] bs[i],
                self.locals@.len(),
            ) by {
                if i < before.len() {
                    assert(bs[i] == before[i]);
                }
            }
            assert forall|i: int| 0 <= i < bs.len() implies (#[trigger] bs[i]).id.0 == i by {
                if i < before.len() {
                    assert(bs[i] == before[i]);
                }
            }
        }
        id
    }

    fn set_terminator(&mut self, block: BasicBlockId, terminator: TerminatorKind)
        requires
            old(self).wf(),
            block.0 < old(self).blocks@.len(),
            forall|k: int| 0 <= k < successors(terminator).len() ==> #[trigger] successors(terminator)[k].0 < old(
                self,
            ).blocks@.len(),
        ensures
            final(self).wf(),
            final(self).grows(*old(self)),
            final(self).blocks@.len() == old(self).blocks@.len(),
            final(self).blocks@[block.0 as int].terminator == terminator,
            final(self).blocks@[block.0 as int].statements == old(self).blocks@[block.0 as int].statements,
            forall|i: int| 0 <= i < old(self).blocks@.len() && i != block.0 ==> #[trigger] final(self).blocks@[i] == old(
                self,
            ).blocks@[i],
            final(self).locals == old(self).locals,
    {
        let ghost before = self.blocks@;
        let ghost t = terminator;
        let mut data = self.blocks.remove(block.0);
        data.terminator = terminator;
        self.blocks.insert(block.0, data);
        proof {
            let bs = self.blocks@;
            assert forall|i: int| 0 <= i < bs.len() implies #[trigger] targets_in_range(bs, i) by {
                if i != block.0 {
                    assert(bs[i] == before[i]);
                    assert(targets_in_range(before, i));
                } else {
                    assert(bs[i].terminator == t);
                }
            }
            assert forall|i: int| 0 <= i < bs.len() implies super::const_eval::block_locals_in_range(
                #[trigger] bs[i],
                self.locals@.len(),
            ) by {
                if i != block.0 {
                    assert(bs[i] == before[i]);
                } else {
                    assert(bs[i].statements == before[i].statements);
                    assert(super::const_eval::block_locals_in_range(before[i], self.locals@.len()));
                }
            }
            assert forall|i: int| 0 <= i < bs.len() implies (#[trigger] bs[i]).id.0 == i by {
                if i != block.0 {
                    assert(bs[i] == before[i]);
                } else {
                    assert(bs[i].id == before[i].id);
                }
            }
        }
    }

    fn emit(&mut self, block: BasicBlockId, kind: StatementKind, span: Span)
        requires
            old(self).wf(),
            block.0 < old(self).blocks@.len(),
            match statement_local(Statement { kind, span }) {
                Some(l) => l.0 < old(self).locals@.len(),
                None => true,
            },
        ensures
            final(self).wf(),
            final(self).grows(*old(self)),
            final(self).blocks@.len() == old(self).blocks@.len(),
            forall|i: int| 0 <= i < old(self).blocks@.len() ==> (#[trigger] final(self).blocks@[i]).terminator == old(
                self,
            ).blocks@[i].terminator,
            final(self).blocks@[block.0 as int].statements@ == old(self).blocks@[block.0 as int].statements@.push(
                Statement { kind, span },
            ),
            forall|i: int| 0 <= i < old(self).blocks@.len() && i != block.0 ==> #[trigger] final(self).blocks@[i] == old(
                self,
            ).blocks@[i],
            final(self).locals == old(self).locals,
    {
        let ghost before = self.blocks@;
        let statement = Statement { kind, span };
        let ghost st = statement;
        let mut data = self.blocks.remove(block.0);
        data.statements.push(statement);
        self.blocks.insert(block.0, data);
        proof {
            let bs = self.blocks@;
            assert forall|i: int| 0 <= i < bs.len() implies #[trigger] targets_in_range(bs, i) by {
                assert(bs[i].terminator == before[i].terminator);
                assert(targets_in_range(before, i));
            }
            assert forall|i: int| 0 <= i < bs.len() implies super::const_eval::block_locals_in_range(
                #[trigger] bs[i],
                self.locals@.len(),
            ) by {
                if i != block.0 {
                    assert(bs[i] == before[i]);
                } else {
                    let old_st = before[i].statements@;
                    assert(bs[i].statements@ == old_st.push(st));
                    assert(super::const_eval::block_locals_in_range(before[i], self.locals@.len()));
                    assert forall|k: int| 0 <= k < bs[i].statements@.len() implies match #[trigger] statement_local(
                        bs[i].statements@[k],
                    ) {
                        Some(l) => l.0 < self.locals@.len(),
                        None => true,
                    } by {
                        if k < old_st.len() {
                            assert(bs[i].statements@[k] == old_st[k]);
                        }
                    }
                }
            }
            assert forall|i: int| 0 <= i < bs.len() implies (#[trigger] bs[i]).id.0 == i by {
                assert(bs[i].id == before[i].id);
            }
        }
    }

    fn emit_assign(&mut self, block: BasicBlockId, place: Place, value: Rvalue, span: Span)
        requires
            old(self).wf(),
            block.0 < old(self).blocks@.len(),
            place.local.0 < old(self).locals@.len(),
        ensures
            final(self).wf(),
            final(self).grows(*old(self)),
            final(self).blocks@.len() == old(self).blocks@.len(),
            final(self).blocks@[block.0 as int].terminator == old(self).blocks@[block.0 as int].terminator,
            final(self).blocks@[block.0 as int].statements@ == old(self).blocks@[block.0 as int].statements@.push(
                Statement { kind: StatementKind::Assign(place, value), span },
            ),
            forall|i: int| 0 <= i < old(self).blocks@.len() && i != block.0 ==> #[trigger] final(self).blocks@[i] == old(
                self,
            ).blocks@[i],
            final(self).locals == old(self).locals,
    {
        self.emit(block, StatementKind::Assign(place, value), span);
    }

    fn is_open(&self, block: BasicBlockId) -> (r: bool)
        requires
            block.0 < self.blocks@.len(),
        ensures
            r == (self.blocks@[block.0 as int].terminator is Unreachable),
    {
        match &self.blocks[block.0].terminator {
            TerminatorKind::Unreachable => true,
            _ => false,
        }
    }

    fn alloc_local(&mut self, name: String, ty: Type, mutable: bool, temp: bool, span: Span) -> (l: LocalId)
        requires
            old(self).wf(),
        ensures
            final(self).wf(),
            final(self).grows(*old(self)),
            final(self).blocks@.len() == old(self).blocks@.len(),
            l.0 == old(self).locals@.len(),
            l.0 < final(self).locals@.len(),
            final(self).blocks == old(self).blocks,
    {
        let id = LocalId(self.locals.len());
        let ghost before = self.blocks@;
        self.locals.push(LocalDecl { id, name, ty, mutable, temp, span });
        proof {
            let bs = self.blocks@;
            assert forall|i: int| 0 <= i < bs.len() implies super::const_eval::block_locals_in_range(
                #[trigger] bs[i],
                self.locals@.len(),
            ) by {
                assert(super::const_eval::block_locals_in_range(before[i], (self.locals@.len() - 1) as nat));
            }
        }
        id
    }

    /// A temporary, live from the entry block.
    fn alloc_temp(&mut self, ty: Type, span: Span) -> (l: LocalId)
        requires
            old(self).wf(),
        ensures
            final(self).wf(),
            final(self).grows(*old(self)),
            final(self).blocks@.len() == old(self).blocks@.len(),
            l.0 < final(self).locals@.len(),
            forall|i: int| 0 < i < old(self).blocks@.len() ==> #[trigger] final(self).blocks@[i] == old(self).blocks@[i],
            forall|i: int| 0 <= i < old(self).blocks@.len() ==> (#[trigger] final(self).blocks@[i]).terminator == old(
                self,
            ).blocks@[i].terminator,
    {
        let mut text = chars_of("_tmp");
        let mut digits = decimal_chars(self.locals.len() as u64);
        text.append(&mut digits);
        let name = string_from_chars(&text);
        let local = self.alloc_local(name, ty, true, true, span);
        self.emit(BasicBlockId(0), StatementKind::StorageLive(local), span);
        local
    }

    fn lookup_binding(&self, symbol: HirSymbolId) -> (r: Option<LocalId>)
        requires
            self.wf(),
        ensures
            r matches Some(l) ==> l.0 < self.locals@.len(),
    {
        let mut s: usize = self.scopes.len();
        while s > 0
            invariant
                s <= self.scopes@.len(),
                self.wf(),
            decreases s,
        {
            s -= 1;
            let scope = &self.scopes[s];
            let mut k: usize = scope.len();
            while k > 0
                invariant
                    k <= scope@.len(),
                    s < self.scopes@.len(),
                    *scope == self.scopes@[s as int],
                    self.wf(),
                decreases k,
            {
                k -= 1;
                if scope[k].0 == symbol {
                    proof {
                        assert(self.scopes@[s as int]@[k as int].1.0 < self.locals@.len());
                    }
                    return Some(scope[k].1);
                }
            }
        }
        None
    }

    fn define_binding(&mut self, symbol: HirSymbolId, local: LocalId)
        requires
            old(self).wf(),
            local.0 < old(self).locals@.len(),
        ensures
            final(self).wf(),
            final(self).grows(*old(self)),
            final(self).blocks == old(self).blocks,
    {
        let n = self.scopes.len();
        if n > 0 {
            let ghost before = self.scopes@;
            let mut scope = self.scopes.remove(n - 1);
            let ghost sc = scope@;
            scope.push((symbol, local));
            self.scopes.push(scope);
            proof {
                assert forall|s: int, k: int| 0 <= s < self.scopes@.len() && 0 <= k < self.scopes@[s]@.len() implies (
                #[trigger] self.scopes@[s]@[k]).1.0 < self.locals@.len() by {
                    if s < n - 1 {
                        assert(self.scopes@[s] == before[s]);
                    } else if k < sc.len() {
                        assert(self.scopes@[s]@[k] == before[s]@[k]);
                    }
                }
            }
        }
    }

    fn push_scope(&mut self)
        requires
            old(self).wf(),
        ensures
            final(self).wf(),
            final(self).grows(*old(self)),
            final(self).blocks == old(self).blocks,
            final(self).locals == old(self).locals,
    {
        let ghost before = self.scopes@;
        self.scopes.push(Vec::new());
        proof {
            assert forall|s: int, k: int| 0 <= s < self.scopes@.len() && 0 <= k < self.scopes@[s]@.len() implies (
            #[trigger] self.scopes@[s]@[k]).1.0 < self.locals@.len() by {
                assert(self.scopes@[s] == before[s]);
            }
        }
    }

    fn pop_scope(&mut self)
        requires
            old(self).wf(),
        ensures
            final(self).wf(),
            final(self).grows(*old(self)),
            final(self).blocks == old(self).blocks,
            final(self).locals == old(self).locals,
    {
        if self.scopes.len() > 1 {
            let ghost before = self.scopes@;
            let _ = self.scopes.pop();
            proof {
                assert forall|s: int, k: int| 0 <= s < self.scopes@.len() && 0 <= k < self.scopes@[s]@.len() implies (
                #[trigger] self.scopes@[s]@[k]).1.0 < self.locals@.len() by {
                    assert(self.scopes@[s] == before[s]);
                }
            }
        }
    }
}

/// The name of a symbol, or nothing for an id the program lacks.
fn symbol_name(program: &HirProgram, id: HirSymbolId) -> (s: String)
    ensures
        id.0 < program.symbols@.len() ==> s@ == program.symbols@[id.0 as int].name@,
{
    if id.0 < program.symbols.len() {
        program.symbols[id.0].name.clone()
    } else {
        String::new()
    }
}

/// The constant `()`.
fn unit_operand() -> (o: Operand)
    ensures
        o matches Operand::Constant(c) && c.ty == Type::Unit && c.value == ConstantValue::Unit,
{
    Operand::Constant(Constant { ty: Type::Unit, value: ConstantValue::Unit })
}

/// The text with the double quotes at either end removed.
fn trim_quotes(value: &str) -> (s: String) {
    let chars = chars_of(value);
    let mut start: usize = 0;
    let mut end: usize = chars.len();
    while start < end && chars[start] == '"'
        invariant
            start <= end <= chars@.len(),
        decreases end - start,
    {
        start += 1;
    }
    while end > start && chars[end - 1] == '"'
        invariant
            start <= end <= chars@.len(),
        decreases end - start,
    {
        end -= 1;
    }
    let mut out: Vec<char> = Vec::new();
    let mut k: usize = start;
    while k < end
        invariant
            start <= k <= end <= chars@.len(),
        decreases end - k,
    {
        out.push(chars[k]);
        k += 1;
    }
    string_from_chars(&out)
}

/// The constant a literal of the type denotes: integers and floats by their text, strings
/// without their quotes, booleans by `true`; anything else as a string.
fn literal_operand(value: &str, ty: &Type) -> (o: Operand)
    ensures
        o is Constant,
        literal_view(value@, *ty) matches Some(v) ==> operand_is(o, v),
{
    let constant = match ty {
        Type::Int => ConstantValue::Integer(crate::text::owned(value)),
        Type::Float => ConstantValue::Float(crate::text::owned(value)),
        Type::String => ConstantValue::String(trim_quotes(value)),
        Type::Bool => ConstantValue::Bool(str_eq(value, "true")),
        _ => ConstantValue::String(crate::text::owned(value)),
    };
    Operand::Constant(Constant { ty: ty.duplicate(), value: constant })
}

impl FunctionLowerer {
    /// The place an expression names: a bound local, then its fields.
    fn expr_place(&self, program: &HirProgram, expr: &HirExpr) -> (r: Option<Place>)
        requires
            self.wf(),
        ensures
            r matches Some(p) ==> p.local.0 < self.locals@.len(),
        decreases *expr,
    {
        match &expr.kind {
            HirExprKind::Path(symbol) => match self.lookup_binding(*symbol) {
                Some(local) => Some(Place::new(local)),
                None => None,
            },
            HirExprKind::Field { base, field } => match self.expr_place(program, base) {
                Some(place) => {
                    let mut place = place;
                    place.projection.push(ProjectionElem::Field(symbol_name(program, *field)));
                    Some(place)
                },
                None => None,
            },
            _ => None,
        }
    }

    /// Lowers an expression into `current`: gives the block control ends in and the operand
    /// that holds the value.
    fn lower_expr(&mut self, program: &HirProgram, expr: &HirExpr, current: BasicBlockId) -> (r: (BasicBlockId, Operand))
        requires
            old(self).wf(),
            current.0 < old(self).blocks@.len(),
            old(self).blocks@[current.0 as int].terminator is Unreachable,
        ensures
            final(self).wf(),
            final(self).grows(*old(self)),
            r.0.0 < final(self).blocks@.len(),
            literal_of(*expr) is Some ==> (r.0 == current && *final(self) == *old(self) && operand_is(r.1, literal_of(*expr)->0)),
            literal_binary(*expr) ==> (r.0 == current && r.1 is Move && final(self).blocks@[current.0 as int].statements@.len() > 0
                && match final(self).blocks@[current.0 as int].statements@.last().kind {
                StatementKind::Assign(p, rv) => p.local == r.1->Move_0.local && p.projection@.len() == 0 && forall|
                    env: Seq<super::optimize::MirValue>,
                | #[trigger] super::optimize::rvalue_value(rv, env) == literal_binary_value(*expr),
                _ => false,
            }),
            final(self).blocks@[r.0.0 as int].terminator is Unreachable,
            r.0 == current || r.0.0 >= old(self).blocks@.len(),
            final(self).kept_except(*old(self), current.0 as int),
        decreases *expr, 1nat,
    {
        match &expr.kind {
            HirExprKind::Literal(value) => (current, literal_operand(value.as_str(), &expr.ty)),
            HirExprKind::EnumVariant { discriminant, .. } => {
                let digits = decimal_chars(*discriminant as u64);
                let text = string_from_chars(&digits);
                (current, Operand::Constant(Constant { ty: expr.ty.duplicate(), value: ConstantValue::Integer(text) }))
            },
            HirExprKind::Path(symbol) => match self.lookup_binding(*symbol) {
                Some(local) => (current, Operand::Copy(Place::new(local))),
                None => (
                    current,
                    Operand::Constant(Constant {
                        ty: expr.ty.duplicate(),
                        value: ConstantValue::Function(symbol_name(program, *symbol)),
                    }),
                ),
            },
            HirExprKind::Array(items) => {
                let (block, elements) = self.lower_exprs(program, items, current);
                let temp = self.alloc_temp(expr.ty.duplicate(), expr.span);
                self.emit_assign(block, Place::new(temp), Rvalue::AggregateArray { elements }, expr.span);
                (block, Operand::Move(Place::new(temp)))
            },
            HirExprKind::RepeatArray { value, length } => {
                let (block, operand) = self.lower_expr(program, value, current);
                let temp = self.alloc_temp(expr.ty.duplicate(), expr.span);
                self.emit_assign(block, Place::new(temp), Rvalue::RepeatArray { value: operand, length: *length }, expr.span);
                (block, Operand::Move(Place::new(temp)))
            },
            HirExprKind::Cast { expr: inner } => {
                let (block, operand) = self.lower_expr(program, inner, current);
                let temp = self.alloc_temp(expr.ty.duplicate(), expr.span);
                self.emit_assign(block, Place::new(temp), Rvalue::Use(operand), expr.span);
                (block, Operand::Move(Place::new(temp)))
            },
            HirExprKind::Unary { op, expr: inner } => {
                let (block, operand) = self.lower_expr(program, inner, current);
                let temp = self.alloc_temp(expr.ty.duplicate(), expr.span);
                self.emit_assign(block, Place::new(temp), Rvalue::UnaryOp { op: op.clone(), operand }, expr.span);
                (block, Operand::Move(Place::new(temp)))
            },
            HirExprKind::Binary { op, left, right } => {
                if str_eq(op.as_str(), "Assign") {
                    return self.lower_assignment(program, expr, current);
                }
                let (block, left_op) = self.lower_expr(program, left, current);
                let (block, right_op) = self.lower_expr(program, right, block);
                let temp = self.alloc_temp(expr.ty.duplicate(), expr.span);
                let ghost lo = left_op;
                let ghost ro = right_op;
                let op_text = op.clone();
                self.emit_assign(
                    block,
                    Place::new(temp),
                    Rvalue::BinaryOp { op: op_text, left: left_op, right: right_op },
                    expr.span,
                );
                let result = Operand::Move(Place::new(temp));
                proof {
                    if literal_binary(*expr) {
                        assert forall|env: Seq<super::optimize::MirValue>| #[trigger] super::optimize::operand_value(lo, env)
                            == view_value(literal_of(**left)) && super::optimize::operand_value(ro, env) == view_value(
                            literal_of(**right),
                        ) by {
                        }
                    }
                }
                (block, result)
            },
            HirExprKind::Call { .. } => self.lower_call(program, expr, current),
            HirExprKind::Field { base, field } => {
                let place = match self.expr_place(program, base) {
                    Some(place) => {
                        let mut place = place;
                        place.projection.push(ProjectionElem::Field(symbol_name(program, *field)));
                        place
                    },
                    None => {
                        let temp = self.alloc_temp(expr.ty.duplicate(), expr.span);
                        Place::new(temp)
                    },
                };
                (current, Operand::Copy(place))
            },
            HirExprKind::Index { target, index } => {
                let (block, index_op) = self.lower_expr(program, index, current);
                let place = match self.expr_place(program, target) {
                    Some(place) => {
                        let mut place = place;
                        place.projection.push(ProjectionElem::Index(index_op));
                        place
                    },
                    None => {
                        let temp = self.alloc_temp(expr.ty.duplicate(), expr.span);
                        Place::new(temp)
                    },
                };
                (block, Operand::Copy(place))
            },
            HirExprKind::StructLiteral { struct_id, fields } => {
                let (block, lowered) = self.lower_fields(program, fields, current);
                let temp = self.alloc_temp(expr.ty.duplicate(), expr.span);
                let path = vec![symbol_name(program, *struct_id)];
                self.emit_assign(block, Place::new(temp), Rvalue::AggregateStruct { path, fields: lowered }, expr.span);
                (block, Operand::Move(Place::new(temp)))
            },
            HirExprKind::If { .. } => self.lower_if(program, expr, current),
            HirExprKind::Match { .. } => self.lower_match(program, expr, current),
            HirExprKind::Block(block) => {
                let (next, value) = self.lower_block_value(program, block, current);
                match value {
                    Some(v) => (next, v),
                    None => (next, unit_operand()),
                }
            },
            HirExprKind::Try(_) => self.lower_try(program, expr, current),
        }
    }

    /// Lowers expressions left to right.
    fn lower_exprs(&mut self, program: &HirProgram, items: &Vec<HirExpr>, current: BasicBlockId) -> (r: (
        BasicBlockId,
        Vec<Operand>,
    ))
        requires
            old(self).wf(),
            current.0 < old(self).blocks@.len(),
            old(self).blocks@[current.0 as int].terminator is Unreachable,
        ensures
            final(self).wf(),
            final(self).grows(*old(self)),
            r.0.0 < final(self).blocks@.len(),
            r.1@.len() == items@.len(),
            final(self).blocks@[r.0.0 as int].terminator is Unreachable,
            r.0 == current || r.0.0 >= old(self).blocks@.len(),
            final(self).kept_except(*old(self), current.0 as int),
        decreases *items, 0nat,
    {
        let mut block = current;
        let mut operands: Vec<Operand> = Vec::new();
        let mut i: usize = 0;
        while i < items.len()
            invariant
                self.wf(),
                self.grows(*old(self)),
                block.0 < self.blocks@.len(),
                i <= items@.len(),
                operands@.len() == i,
                self.blocks@[block.0 as int].terminator is Unreachable,
                block == current || block.0 >= old(self).blocks@.len(),
                self.kept_except(*old(self), current.0 as int),
            decreases items@.len() - i,
        {
            proof {
                assert(decreases_to!(*items => items@));
                assert(decreases_to!(items@ => items@[i as int]));
            }
            let (next, operand) = self.lower_expr(program, &items[i], block);
            block = next;
            operands.push(operand);
            i += 1;
        }
        (block, operands)
    }

    /// Lowers a struct literal's field values left to right, each under its field's name.
    fn lower_fields(&mut self, program: &HirProgram, fields: &Vec<(HirSymbolId, HirExpr)>, current: BasicBlockId) -> (r: (
        BasicBlockId,
        Vec<(String, Operand)>,
    ))
        requires
            old(self).wf(),
            current.0 < old(self).blocks@.len(),
            old(self).blocks@[current.0 as int].terminator is Unreachable,
        ensures
            final(self).wf(),
            final(self).grows(*old(self)),
            r.0.0 < final(self).blocks@.len(),
            r.1@.len() == fields@.len(),
            final(self).blocks@[r.0.0 as int].terminator is Unreachable,
            r.0 == current || r.0.0 >= old(self).blocks@.len(),
            final(self).kept_except(*old(self), current.0 as int),
        decreases *fields, 0nat,
    {
        let mut block = current;
        let mut lowered: Vec<(String, Operand)> = Vec::new();
        let mut i: usize = 0;
        while i < fields.len()
            invariant
                self.wf(),
                self.grows(*old(self)),
                block.0 < self.blocks@.len(),
                i <= fields@.len(),
                lowered@.len() == i,
                self.blocks@[block.0 as int].terminator is Unreachable,
                block == current || block.0 >= old(self).blocks@.len(),
                self.kept_except(*old(self), current.0 as int),
            decreases fields@.len() - i,
        {
            proof {
                assert(decreases_to!(*fields => fields@));
                assert(decreases_to!(fields@ => fields@[i as int]));
                assert(decreases_to!(fields@[i as int] => fields@[i as int].1));
            }
            let (next, operand) = self.lower_expr(program, &fields[i].1, block);
            block = next;
            lowered.push((symbol_name(program, fields[i].0), operand));
            i += 1;
        }
        (block, lowered)
    }

    /// `place = value`: the value into the place the left side names; its value is the place.
    fn lower_assignment(&mut self, program: &HirProgram, expr: &HirExpr, current: BasicBlockId) -> (r: (BasicBlockId, Operand))
        requires
            old(self).wf(),
            current.0 < old(self).blocks@.len(),
            old(self).blocks@[current.0 as int].terminator is Unreachable,
        ensures
            final(self).wf(),
            final(self).grows(*old(self)),
            r.0.0 < final(self).blocks@.len(),
            final(self).blocks@[r.0.0 as int].terminator is Unreachable,
            r.0 == current || r.0.0 >= old(self).blocks@.len(),
            final(self).kept_except(*old(self), current.0 as int),
        decreases *expr, 0nat,
    {
        match &expr.kind {
            HirExprKind::Binary { left, right, .. } => {
                match self.expr_place(program, left) {
                    Some(place) => {
                        let (block, value) = self.lower_expr(program, right, current);
                        let target = copy_place(&place);
                        self.emit_assign(block, place, Rvalue::Use(value), expr.span);
                        (block, Operand::Copy(target))
                    },
                    None => {
                        let temp = self.alloc_temp(Type::Unknown, expr.span);
                        (current, Operand::Move(Place::new(temp)))
                    },
                }
            },
            _ => (current, unit_operand()),
        }
    }

    /// A call: the receiver of a method first, then the arguments, then the call into a
    /// new block; a value other than `()` lands in a temporary.
    fn lower_call(&mut self, program: &HirProgram, expr: &HirExpr, current: BasicBlockId) -> (r: (BasicBlockId, Operand))
        requires
            old(self).wf(),
            current.0 < old(self).blocks@.len(),
            old(self).blocks@[current.0 as int].terminator is Unreachable,
        ensures
            final(self).wf(),
            final(self).grows(*old(self)),
            r.0.0 < final(self).blocks@.len(),
            final(self).blocks@[r.0.0 as int].terminator is Unreachable,
            r.0 == current || r.0.0 >= old(self).blocks@.len(),
            final(self).kept_except(*old(self), current.0 as int),
            expr.kind is Call ==> exists|h: int| 0 <= h < final(self).blocks@.len() && match #[trigger] final(self).blocks@[h].terminator {
                TerminatorKind::Call { target, .. } => target == r.0,
                _ => false,
            },
        decreases *expr, 0nat,
    {
        match &expr.kind {
            HirExprKind::Call { callee, args } => {
                let mut block = current;
                let mut lowered_args: Vec<Operand> = Vec::new();
                let callee_operand = match &callee.kind {
                    HirExprKind::Field { base, field } => {
                        let (next, receiver) = self.lower_expr(program, base, block);
                        block = next;
                        lowered_args.push(receiver);
                        let mut text = chars_of(base.ty.display_name().as_str());
                        push_str_chars(&mut text, ".");
                        push_str_chars(&mut text, symbol_name(program, *field).as_str());
                        Operand::Constant(Constant {
                            ty: callee.ty.duplicate(),
                            value: ConstantValue::Function(string_from_chars(&text)),
                        })
                    },
                    _ => {
                        let (next, operand) = self.lower_expr(program, callee, block);
                        block = next;
                        operand
                    },
                };
                let (next, mut rest) = self.lower_exprs(program, args, block);
                block = next;
                lowered_args.append(&mut rest);
                let destination = if matches!(expr.ty, Type::Unit) {
                    None
                } else {
                    let temp = self.alloc_temp(expr.ty.duplicate(), expr.span);
                    Some(Place::new(temp))
                };
                let target = self.new_block();
                let value = match &destination {
                    Some(p) => Operand::Move(copy_place(p)),
                    None => unit_operand(),
                };
                self.set_terminator(block, TerminatorKind::Call { callee: callee_operand, args: lowered_args, destination, target });
                (target, value)
            },
            _ => (current, unit_operand()),
        }
    }

    /// `if`: a branch on the condition to the two arms, each flowing into a join block; a
    /// value other than `()` lands in a temporary.
    fn lower_if(&mut self, program: &HirProgram, expr: &HirExpr, current: BasicBlockId) -> (r: (BasicBlockId, Operand))
        requires
            old(self).wf(),
            current.0 < old(self).blocks@.len(),
            old(self).blocks@[current.0 as int].terminator is Unreachable,
        ensures
            final(self).wf(),
            final(self).grows(*old(self)),
            r.0.0 < final(self).blocks@.len(),
            literal_if(*expr) ==> (r.1 is Move && forall|env: Map<usize, ConstView>| #[trigger] flow(
                final(self).blocks@,
                current.0 as int,
                env,
                2,
            ) == (r.0.0 as int, env.insert(r.1->Move_0.local.0, literal_if_value(*expr)))),
            final(self).blocks@[r.0.0 as int].terminator is Unreachable,
            r.0 == current || r.0.0 >= old(self).blocks@.len(),
            final(self).kept_except(*old(self), current.0 as int),
        decreases *expr, 0nat,
    {
        let ghost lit = literal_if(*expr);
        match &expr.kind {
            HirExprKind::If { condition, then_block, else_branch } => {
                let result = if matches!(expr.ty, Type::Unit) {
                    None
                } else {
                    Some(self.alloc_temp(expr.ty.duplicate(), expr.span))
                };
                let (cond_block, cond) = self.lower_expr(program, condition, current);
                let then_bb = self.new_block();
                let else_bb = self.new_block();
                let join_bb = self.new_block();
                let ghost cond_op = cond;
                self.set_terminator(cond_block, TerminatorKind::Branch { condition: cond, then_bb, else_bb });
                let ghost s1 = self.blocks@;
                let (then_exit, then_value) = self.lower_block_value(program, then_block, then_bb);
                let ghost then_op = then_value;
                match (result, then_value) {
                    (Some(local), Some(value)) => {
                        self.emit_assign(then_exit, Place::new(local), Rvalue::Use(value), then_block.span);
                    },
                    _ => {},
                }
                if self.is_open(then_exit) {
                    self.set_terminator(then_exit, TerminatorKind::Goto { target: join_bb });
                }
                let ghost s2 = self.blocks@;
                let ghost else_op: Option<Operand> = None;
                let else_exit = match else_branch {
                    Some(else_expr) => {
                        let (exit, value) = self.lower_expr(program, else_expr, else_bb);
                        proof {
                            else_op = Some(value);
                        }
                        match result {
                            Some(local) => {
                                self.emit_assign(exit, Place::new(local), Rvalue::Use(value), else_expr.span);
                            },
                            None => {},
                        }
                        exit
                    },
                    None => else_bb,
                };
                if self.is_open(else_exit) {
                    self.set_terminator(else_exit, TerminatorKind::Goto { target: join_bb });
                }
                let operand = match result {
                    Some(local) => Operand::Move(Place::new(local)),
                    None => unit_operand(),
                };
                proof {
                    if lit {
                        let f = self.blocks@;
                        let local = result->0;
                        let b = literal_of(**condition)->0->Bool_0;
                        assert(cond_block == current && then_exit == then_bb && else_exit == else_bb);
                        assert(then_bb.0 != current.0 && else_bb.0 != current.0 && join_bb.0 != current.0);
                        assert(f[current.0 as int] == s1[current.0 as int]);
                        assert(f[current.0 as int].terminator == TerminatorKind::Branch { condition: cond_op, then_bb, else_bb });
                        assert(f[then_bb.0 as int] == s2[then_bb.0 as int]);
                        let ts = f[then_bb.0 as int].statements@;
                        assert(ts.len() == 1);
                        assert(f[then_bb.0 as int].terminator == TerminatorKind::Goto { target: join_bb });
                        let es = f[else_bb.0 as int].statements@;
                        assert(es.len() == 1);
                        assert(f[else_bb.0 as int].terminator == TerminatorKind::Goto { target: join_bb });
                        match ts[0].kind {
                            StatementKind::Assign(q, Rvalue::Use(o)) => {
                                assert(q.local == local && q.projection@.len() == 0 && o == then_op->0);
                            },
                            _ => {
                                assert(false);
                            },
                        }
                        match es[0].kind {
                            StatementKind::Assign(q, Rvalue::Use(o)) => {
                                assert(q.local == local && q.projection@.len() == 0 && o == else_op->0);
                            },
                            _ => {
                                assert(false);
                            },
                        }
                        assert(f[join_bb.0 as int].statements@.len() == 0);
                        reveal_with_fuel(flow, 3);
                        reveal_with_fuel(run_statements, 2);
                        assert forall|env: Map<usize, ConstView>| #[trigger] flow(f, current.0 as int, env, 2) == (
                            join_bb.0 as int,
                            env.insert(local.0, literal_if_value(*expr)),
                        ) by {
                            assert(ts.drop_last() =~= Seq::<Statement>::empty());
                            assert(es.drop_last() =~= Seq::<Statement>::empty());
                            assert(f[join_bb.0 as int].statements@ =~= Seq::<Statement>::empty());
                        }
                    }
                }
                (join_bb, operand)
            },
            _ => (current, unit_operand()),
        }
    }

    /// `match`: a switch on the value to a block per arm, each flowing into a join block,
    /// which is also where a value no arm matches goes.
    fn lower_match(&mut self, program: &HirProgram, expr: &HirExpr, current: BasicBlockId) -> (r: (BasicBlockId, Operand))
        requires
            old(self).wf(),
            current.0 < old(self).blocks@.len(),
            old(self).blocks@[current.0 as int].terminator is Unreachable,
        ensures
            final(self).wf(),
            final(self).grows(*old(self)),
            r.0.0 < final(self).blocks@.len(),
            final(self).blocks@[r.0.0 as int].terminator is Unreachable,
            r.0 == current || r.0.0 >= old(self).blocks@.len(),
            final(self).kept_except(*old(self), current.0 as int),
        decreases *expr, 0nat,
    {
        match &expr.kind {
            HirExprKind::Match { value, arms } => {
                let result = if matches!(expr.ty, Type::Unit) {
                    None
                } else {
                    Some(self.alloc_temp(expr.ty.duplicate(), expr.span))
                };
                let (block, discriminant) = self.lower_expr(program, value, current);
                let join = self.new_block();
                proof {
                    assert(decreases_to!(*expr => expr.kind));
                    assert(decreases_to!(expr.kind => *arms));
                }
                let mut targets: Vec<MatchTarget> = Vec::new();
                let mut copies: Vec<BasicBlockId> = Vec::new();
                let mut i: usize = 0;
                while i < arms.len()
                    invariant
                        self.wf(),
                        self.grows(*old(self)),
                        block.0 < self.blocks@.len(),
                        join.0 < self.blocks@.len(),
                        i <= arms@.len(),
                        targets@.len() == i,
                        copies@.len() == i,
                        forall|k: int| 0 <= k < i ==> copies@[k] == (#[trigger] targets@[k]).target,
                        forall|k: int| 0 <= k < i ==> (#[trigger] copies@[k]).0 == join.0 + 1 + k,
                        self.blocks@.len() == join.0 + 1 + i,
                        join.0 >= old(self).blocks@.len(),
                        block == current || block.0 >= old(self).blocks@.len(),
                        block.0 < join.0,
                        self.blocks@[block.0 as int].terminator is Unreachable,
                        forall|k: int| join.0 <= k < self.blocks@.len() ==> (#[trigger] self.blocks@[k]).terminator is Unreachable,
                        self.kept_except(*old(self), current.0 as int),
                        result matches Some(l) ==> l.0 < self.locals@.len(),
                    decreases arms@.len() - i,
                {
                    let target = self.new_block();
                    targets.push(MatchTarget { pattern: arms[i].pattern.clone(), target });
                    copies.push(target);
                    i += 1;
                }
                let ghost arm_targets = targets@;
                proof {
                    let t = TerminatorKind::Match { discriminant, arms: targets, otherwise: join };
                    assert forall|j: int| 0 <= j < successors(t).len() implies #[trigger] successors(t)[j].0 < self.blocks@.len() by {
                        if j < targets@.len() {
                            assert(successors(t)[j] == targets@[j].target);
                            assert(copies@[j] == targets@[j].target);
                        }
                    }
                }
                self.set_terminator(block, TerminatorKind::Match { discriminant, arms: targets, otherwise: join });
                proof {
                    assert forall|j: int| 0 <= j < copies@.len() implies (#[trigger] copies@[j]).0 < self.blocks@.len() by {
                        assert(copies@[j].0 == join.0 + 1 + j);
                    }
                }
                let mut a: usize = 0;
                while a < arms.len()
                    invariant
                        self.wf(),
                        self.grows(*old(self)),
                        join.0 < self.blocks@.len(),
                        a <= arms@.len(),
                        copies@.len() == arms@.len(),
                        forall|j: int| 0 <= j < copies@.len() ==> (#[trigger] copies@[j]).0 < self.blocks@.len(),
                        result matches Some(l) ==> l.0 < self.locals@.len(),
                        decreases_to!(*expr => *arms),
                        forall|j: int| 0 <= j < copies@.len() ==> (#[trigger] copies@[j]).0 == join.0 + 1 + j,
                        join.0 >= old(self).blocks@.len(),
                        self.blocks@[join.0 as int].terminator is Unreachable,
                        forall|j: int| a <= j < copies@.len() ==> self.blocks@[(#[trigger] copies@[j]).0 as int].terminator is Unreachable,
                        self.kept_except(*old(self), current.0 as int),
                    decreases arms@.len() - a,
                {
                    proof {
                        assert(decreases_to!(*arms => arms@));
                        assert(decreases_to!(arms@ => arms@[a as int]));
                        assert(decreases_to!(arms@[a as int] => arms@[a as int].value));
                    }
                    let (arm_exit, arm_value) = self.lower_expr(program, &arms[a].value, copies[a]);
                    match result {
                        Some(local) => {
                            self.emit_assign(arm_exit, Place::new(local), Rvalue::Use(arm_value), arms[a].span);
                        },
                        None => {},
                    }
                    if self.is_open(arm_exit) {
                        self.set_terminator(arm_exit, TerminatorKind::Goto { target: join });
                    }
                    a += 1;
                }
                let operand = match result {
                    Some(local) => Operand::Move(Place::new(local)),
                    None => unit_operand(),
                };
                (join, operand)
            },
            _ => (current, unit_operand()),
        }
    }

    /// `?`: on an error, the error is returned; on success control goes on with the value.
    fn lower_try(&mut self, program: &HirProgram, expr: &HirExpr, current: BasicBlockId) -> (r: (BasicBlockId, Operand))
        requires
            old(self).wf(),
            current.0 < old(self).blocks@.len(),
            old(self).blocks@[current.0 as int].terminator is Unreachable,
        ensures
            final(self).wf(),
            final(self).grows(*old(self)),
            r.0.0 < final(self).blocks@.len(),
            final(self).blocks@[r.0.0 as int].terminator is Unreachable,
            r.0 == current || r.0.0 >= old(self).blocks@.len(),
            final(self).kept_except(*old(self), current.0 as int),
            expr.kind is Try ==> exists|h: int| 0 <= h < final(self).blocks@.len() && match #[trigger] final(self).blocks@[h].terminator {
                TerminatorKind::Try { ok_target, err_target, .. } => try_targets_ok(final(self).blocks@, ok_target, err_target, r.0),
                _ => false,
            },
        decreases *expr, 0nat,
    {
        match &expr.kind {
            HirExprKind::Try(inner) => {
                let (block, operand) = self.lower_expr(program, inner, current);
                let ok_local = self.alloc_temp(expr.ty.duplicate(), expr.span);
                let err_local = self.alloc_temp(Type::Error, expr.span);
                let ok_bb = self.new_block();
                let err_bb = self.new_block();
                let join_bb = self.new_block();
                self.set_terminator(
                    block,
                    TerminatorKind::Try { operand, ok_local, err_local, ok_target: ok_bb, err_target: err_bb },
                );
                self.set_terminator(ok_bb, TerminatorKind::Goto { target: join_bb });
                let ret = self.return_local;
                self.emit_assign(err_bb, Place::new(ret), Rvalue::ResultErr(Operand::Move(Place::new(err_local))), expr.span);
                self.set_terminator(err_bb, TerminatorKind::Return);
                proof {
                    assert(block.0 != ok_bb.0 && block.0 != err_bb.0);
                    assert(try_targets_ok(self.blocks@, ok_bb, err_bb, join_bb));
                    assert(self.blocks@[block.0 as int].terminator matches TerminatorKind::Try { ok_target, err_target, .. }
                        && ok_target == ok_bb && err_target == err_bb);
                }
                (join_bb, Operand::Move(Place::new(ok_local)))
            },
            _ => (current, unit_operand()),
        }
    }

    /// Lowers a block's statements in a scope of their own; gives the value of the last
    /// statement when the block has a type other than `()`.
    fn lower_block_value(&mut self, program: &HirProgram, block: &HirBlock, current: BasicBlockId) -> (r: (
        BasicBlockId,
        Option<Operand>,
    ))
        requires
            old(self).wf(),
            current.0 < old(self).blocks@.len(),
            old(self).blocks@[current.0 as int].terminator is Unreachable,
        ensures
            final(self).wf(),
            final(self).grows(*old(self)),
            r.0.0 < final(self).blocks@.len(),
            literal_block(*block) is Some ==> (r.0 == current && final(self).blocks == old(self).blocks
                && final(self).locals == old(self).locals && r.1 is Some && operand_is(r.1->0, literal_block(*block)->0)),
            final(self).blocks@[r.0.0 as int].terminator is Unreachable,
            r.0 == current || r.0.0 >= old(self).blocks@.len(),
            final(self).kept_except(*old(self), current.0 as int),
        decreases *block, 1nat,
    {
        let ghost lit = literal_block(*block);
        let ghost start = *self;
        let ghost start_current = current;
        self.push_scope();
        let n = block.statements.len();
        let last_index: usize = if n > 0 { n - 1 } else { 0 };
        let wants_value = !matches!(block.ty, Type::Unit);
        let mut result: Option<Operand> = None;
        let mut current = current;
        let mut i: usize = 0;
        while i < n
            invariant
                self.wf(),
                self.grows(*old(self)),
                current.0 < self.blocks@.len(),
                n == block.statements@.len(),
                i <= n,
                self.blocks@[current.0 as int].terminator is Unreachable,
                current == start_current || current.0 >= old(self).blocks@.len(),
                self.kept_except(*old(self), start_current.0 as int),
                lit == literal_block(*block),
                lit is Some ==> self.blocks == start.blocks && self.locals == start.locals && current == start_current,
                lit is Some ==> wants_value && last_index == 0,
                (lit is Some && i > 0) ==> (result is Some && operand_is(result->0, lit->0)),
            decreases n - i,
        {
            proof {
                assert(decreases_to!(*block => block.statements));
                assert(decreases_to!(block.statements => block.statements@));
                assert(decreases_to!(block.statements@ => block.statements@[i as int]));
            }
            let capture = wants_value && i == last_index;
            let (next, value) = self.lower_statement(program, &block.statements[i], current, capture);
            current = next;
            if capture {
                result = value;
            }
            i += 1;
        }
        self.pop_scope();
        (current, result)
    }

    /// A local for a binding, live from the current block, in scope from here on.
    fn bind_local(&mut self, program: &HirProgram, symbol: HirSymbolId, ty: Type, mutable: bool, span: Span, current: BasicBlockId)
        -> (l: LocalId)
        requires
            old(self).wf(),
            current.0 < old(self).blocks@.len(),
        ensures
            final(self).wf(),
            final(self).grows(*old(self)),
            final(self).blocks@.len() == old(self).blocks@.len(),
            l.0 < final(self).locals@.len(),
            forall|i: int| 0 <= i < old(self).blocks@.len() ==> (#[trigger] final(self).blocks@[i]).terminator == old(
                self,
            ).blocks@[i].terminator,
    {
        let local = self.alloc_local(symbol_name(program, symbol), ty, mutable, false, span);
        self.define_binding(symbol, local);
        self.emit(current, StatementKind::StorageLive(local), span);
        local
    }

    /// Lowers a statement into `current`: gives the block control ends in, and the value of
    /// an expression statement when it is asked for.
    fn lower_statement(&mut self, program: &HirProgram, statement: &HirStmt, current: BasicBlockId, capture: bool) -> (r: (
        BasicBlockId,
        Option<Operand>,
    ))
        requires
            old(self).wf(),
            current.0 < old(self).blocks@.len(),
            old(self).blocks@[current.0 as int].terminator is Unreachable,
        ensures
            final(self).wf(),
            final(self).grows(*old(self)),
            r.0.0 < final(self).blocks@.len(),
            *statement is For ==> exists|h: int| 0 <= h < final(self).blocks@.len() && match #[trigger] final(self).blocks@[h].terminator {
                TerminatorKind::IterNext { loop_body, exit, .. } => exit == r.0 && loop_body != r.0,
                _ => false,
            },
            while_literal(*statement) is Some ==> (final(self).blocks@[current.0 as int].terminator matches TerminatorKind::Goto {
                target: h,
            } && h.0 < final(self).blocks@.len() && forall|env: Map<usize, ConstView>| #[trigger] next_block(
                final(self).blocks@[h.0 as int].terminator,
                env,
            ) matches Some(n) && (n == r.0 <==> while_literal(*statement) == Some(false))),
            statement_literal(*statement) is Some ==> (r.0 == current && *final(self) == *old(self) && (capture ==> (r.1 is Some
                && operand_is(r.1->0, statement_literal(*statement)->0)))),
            final(self).blocks@[r.0.0 as int].terminator is Unreachable,
            r.0 == current || r.0.0 >= old(self).blocks@.len(),
            final(self).kept_except(*old(self), current.0 as int),
        decreases *statement, 0nat,
    {
        match statement {
            HirStmt::Let(binding) => {
                let local = self.bind_local(program, binding.symbol, binding.ty.duplicate(), true, binding.span, current);
                let (block, value) = self.lower_expr(program, &binding.value, current);
                self.emit_assign(block, Place::new(local), Rvalue::Use(value), binding.span);
                (block, None)
            },
            HirStmt::Const(binding) => {
                let local = self.bind_local(program, binding.symbol, binding.ty.duplicate(), false, binding.span, current);
                let (block, value) = self.lower_expr(program, &binding.value, current);
                self.emit_assign(block, Place::new(local), Rvalue::Use(value), binding.span);
                (block, None)
            },
            HirStmt::For(for_stmt) => {
                let mut text = chars_of(symbol_name(program, for_stmt.binding).as_str());
                push_str_chars(&mut text, "_iter");
                let iter_local = self.alloc_local(string_from_chars(&text), for_stmt.iterable.ty.duplicate(), true, true, for_stmt.span);
                self.emit(current, StatementKind::StorageLive(iter_local), for_stmt.span);
                let (block, iterable) = self.lower_expr(program, &for_stmt.iterable, current);
                self.emit_assign(block, Place::new(iter_local), Rvalue::Use(iterable), for_stmt.span);
                let binding_local = self.alloc_local(
                    symbol_name(program, for_stmt.binding),
                    for_stmt.binding_ty.duplicate(),
                    true,
                    false,
                    for_stmt.span,
                );
                let head = self.new_block();
                let body = self.new_block();
                let exit = self.new_block();
                self.set_terminator(block, TerminatorKind::Goto { target: head });
                self.set_terminator(
                    head,
                    TerminatorKind::IterNext { iterator: Place::new(iter_local), binding: binding_local, loop_body: body, exit },
                );
                self.push_scope();
                self.define_binding(for_stmt.binding, binding_local);
                self.emit(body, StatementKind::StorageLive(binding_local), for_stmt.span);
                let ghost s1 = *self;
                let (body_exit, _) = self.lower_block_value(program, &for_stmt.body, body);
                self.pop_scope();
                if self.is_open(body_exit) {
                    self.set_terminator(body_exit, TerminatorKind::Goto { target: head });
                }
                proof {
                    assert(body_exit == body || body_exit.0 >= s1.blocks@.len());
                    assert(self.blocks@[head.0 as int].terminator == s1.blocks@[head.0 as int].terminator);
                    assert(self.blocks@[head.0 as int].terminator matches TerminatorKind::IterNext { loop_body, exit: e, .. } && e
                        == exit && loop_body == body);
                }
                (exit, None)
            },
            HirStmt::While(while_stmt) => {
                let head = self.new_block();
                let body = self.new_block();
                let exit = self.new_block();
                self.set_terminator(current, TerminatorKind::Goto { target: head });
                let (cond_block, condition) = self.lower_expr(program, &while_stmt.condition, head);
                self.set_terminator(cond_block, TerminatorKind::Branch { condition, then_bb: body, else_bb: exit });
                let ghost cond_op = condition;
                let ghost s1 = *self;
                let (body_exit, _) = self.lower_block_value(program, &while_stmt.body, body);
                let ghost s2 = *self;
                if self.is_open(body_exit) {
                    self.set_terminator(body_exit, TerminatorKind::Goto { target: head });
                }
                proof {
                    if while_literal(*statement) is Some {
                        assert(cond_block == head);
                        assert(body_exit == body || body_exit.0 >= s1.blocks@.len());
                        assert(s2.blocks@[head.0 as int].terminator == s1.blocks@[head.0 as int].terminator);
                        assert(self.blocks@[head.0 as int].terminator == TerminatorKind::Branch {
                            condition: cond_op,
                            then_bb: body,
                            else_bb: exit,
                        });
                        assert(self.blocks@[current.0 as int].terminator == TerminatorKind::Goto { target: head });
                    }
                }
                (exit, None)
            },
            HirStmt::Return(value, span) => {
                let block = match value {
                    Some(e) => {
                        let (block, operand) = self.lower_expr(program, e, current);
                        let ret = self.return_local;
                        self.emit_assign(block, Place::new(ret), Rvalue::Use(operand), *span);
                        block
                    },
                    None => current,
                };
                self.set_terminator(block, TerminatorKind::Return);
                (self.new_block(), None)
            },
            HirStmt::Expr(e) => {
                let (block, value) = self.lower_expr(program, e, current);
                if capture {
                    (block, Some(value))
                } else {
                    (block, None)
                }
            },
        }
    }
}

/// The functions among the items, in order.
pub open spec fn function_items(items: Seq<HirItem>) -> Seq<HirFunction>
    decreases items.len(),
{
    if items.len() == 0 {
        Seq::empty()
    } else {
        let rest = function_items(items.drop_last());
        match items.last() {
            HirItem::Function(f) => rest.push(f),
            _ => rest,
        }
    }
}

/// What lowering keeps of a function, and the shape of every lowered function: the entry is
/// block 0, the return value is local 0 (`_return`, of the return type), every block is at
/// its index, and the function is well formed. A function without a body only returns.
pub open spec fn lowers_to(h: HirFunction, f: MirFunction) -> bool {
    &&& crate::types::same_name(f.receiver, h.signature.key.receiver)
    &&& f.name@ == h.signature.key.name@
    &&& crate::types::same_signature(f.signature, h.signature)
    &&& f.is_declaration == h.is_declaration
    &&& f.span == h.span
    &&& f.entry.0 == 0
    &&& f.return_local.0 == 0
    &&& f.locals@.len() > 0
    &&& f.locals@[0].name@ == "_return"@
    &&& crate::types::same_type(f.locals@[0].ty, *h.signature.return_type)
    &&& graph_ok(f.blocks@, f.locals@.len())
    &&& well_formed(f)
    &&& (h.body is None ==> f.blocks@.len() == 1 && f.blocks@[0].terminator is Return)
}

/// Lowers a function: the return local and each parameter live in the entry block, then
/// the body; where control reaches the end, the function returns.
fn lower_function(program: &HirProgram, function: &HirFunction) -> (r: MirFunction)
    ensures
        lowers_to(*function, r),
{
    let ret_ty = function.signature.return_type.duplicate();
    let mut statements: Vec<Statement> = Vec::new();
    statements.push(Statement { kind: StatementKind::StorageLive(LocalId(0)), span: function.span });
    let entry = BasicBlockData { id: BasicBlockId(0), statements, terminator: TerminatorKind::Unreachable };
    let mut locals: Vec<LocalDecl> = Vec::new();
    locals.push(LocalDecl {
        id: LocalId(0),
        name: string_from_chars(&chars_of("_return")),
        ty: ret_ty,
        mutable: true,
        temp: true,
        span: function.span,
    });
    let mut blocks: Vec<BasicBlockData> = Vec::new();
    blocks.push(entry);
    let mut scopes: Vec<Vec<(HirSymbolId, LocalId)>> = Vec::new();
    scopes.push(Vec::new());
    let mut lowerer = FunctionLowerer { locals, blocks, scopes, return_local: LocalId(0) };
    proof {
        let bs = lowerer.blocks@;
        assert(successors(bs[0].terminator).len() == 0);
        assert(targets_in_range(bs, 0));
        assert(super::const_eval::block_locals_in_range(bs[0], 1));
        assert(lowerer.scopes@[0]@.len() == 0);
        assert(lowerer.wf());
    }
    let ghost start = lowerer;
    let mut i: usize = 0;
    while i < function.params.len()
        invariant
            lowerer.wf(),
            lowerer.grows(start),
            lowerer.blocks@.len() == 1,
            lowerer.blocks@[0].terminator is Unreachable,
            start.locals@.len() == 1,
            i <= function.params@.len(),
        decreases function.params@.len() - i,
    {
        let param = &function.params[i];
        lowerer.bind_local(program, param.symbol, param.ty.duplicate(), false, param.span, BasicBlockId(0));
        i += 1;
    }
    let final_block = match &function.body {
        Some(body) => {
            let (block, value) = lowerer.lower_block_value(program, body, BasicBlockId(0));
            match value {
                Some(v) => {
                    lowerer.emit_assign(block, Place::new(LocalId(0)), Rvalue::Use(v), body.span);
                },
                None => {},
            }
            block
        },
        None => BasicBlockId(0),
    };
    if lowerer.is_open(final_block) {
        lowerer.set_terminator(final_block, TerminatorKind::Return);
    }
    let FunctionLowerer { locals, blocks, scopes: _, return_local } = lowerer;
    let receiver = match &function.signature.key.receiver {
        Some(r) => Some(r.clone()),
        None => None,
    };
    let f = MirFunction {
        receiver,
        name: function.signature.key.name.clone(),
        signature: function.signature.duplicate(),
        is_declaration: function.is_declaration,
        locals,
        blocks,
        entry: BasicBlockId(0),
        return_local,
        span: function.span,
    };
    proof {
        assert(f.locals@[0] == start.locals@[0]);
        assert(crate::types::same_name(f.receiver, function.signature.key.receiver));
        assert(f.locals@[0].name@ == "_return"@);
        assert(crate::types::same_type(f.locals@[0].ty, *function.signature.return_type));
        assert(graph_ok(f.blocks@, f.locals@.len()));
        assert(well_formed(f));
        assert(function.body is None ==> f.blocks@.len() == 1 && f.blocks@[0].terminator is Return);
    }
    f
}

/// Lowers every function of the program, in order; imports, structs and enums have no MIR.
pub fn lower_program(program: &HirProgram) -> (r: MirProgram)
    ensures
        r.span == program.span,
        r.functions@.len() == function_items(program.items@).len(),
        forall|k: int| 0 <= k < r.functions@.len() ==> lowers_to(function_items(program.items@)[k], #[trigger] r.functions@[k]),
{
    let mut functions: Vec<MirFunction> = Vec::new();
    let mut i: usize = 0;
    while i < program.items.len()
        invariant
            i <= program.items@.len(),
            functions@.len() == function_items(program.items@.take(i as int)).len(),
            forall|k: int| 0 <= k < functions@.len() ==> lowers_to(
                function_items(program.items@.take(i as int))[k],
                #[trigger] functions@[k],
            ),
        decreases program.items@.len() - i,
    {
        let ghost before = functions@;
        proof {
            assert(program.items@.take(i + 1).drop_last() =~= program.items@.take(i as int));
            assert(program.items@.take(i + 1).last() == program.items@[i as int]);
        }
        match &program.items[i] {
            HirItem::Function(function) => {
                let lowered = lower_function(program, function);
                functions.push(lowered);
                proof {
                    let fi = function_items(program.items@.take(i + 1));
                    assert(fi == function_items(program.items@.take(i as int)).push(*function));
                    assert forall|k: int| 0 <= k < functions@.len() implies lowers_to(fi[k], #[trigger] functions@[k]) by {
                        if k < before.len() {
                            assert(functions@[k] == before[k]);
                        }
                    }
                }
            },
            _ => {},
        }
        i += 1;
    }
    proof {
        assert(program.items@.take(i as int) =~= program.items@);
    }
    MirProgram { functions, span: program.span }
}

} // verus!
