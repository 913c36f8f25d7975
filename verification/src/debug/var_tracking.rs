//! Where each variable of a function is live, read and written.

use vstd::prelude::*;
use crate::ast::span::Span;
use crate::mir::{
    BasicBlockData, BasicBlockId, LocalDecl, LocalId, MirFunction, Operand, Place, ProjectionElem, Rvalue,
    Statement, StatementKind, TerminatorKind,
};
use crate::text::owned;
use crate::types::type_text;

verus! {

#[derive(Debug, Clone, Copy, PartialEq, Eq, Structural)]
pub enum VariableUseKind {
    StorageLive,
    StorageDead,
    Read,
    Write,
    Drop,
}

#[derive(Debug, Clone, Copy, PartialEq, Eq, Structural)]
pub enum ProgramPoint {
    Statement { block: BasicBlockId, index: usize },
    Terminator { block: BasicBlockId },
}

#[derive(Debug, Clone, PartialEq, Eq)]
pub struct VariableUse {
    pub local: LocalId,
    pub name: String,
    pub kind: VariableUseKind,
    pub point: ProgramPoint,
    pub span: Span,
    pub projection: Vec<String>,
}

#[derive(Debug, Clone, PartialEq, Eq)]
pub struct VariableSummary {
    pub local: LocalId,
    pub name: String,
    pub ty: String,
    pub mutable: bool,
    pub temp: bool,
    pub reads: usize,
    pub writes: usize,
    pub live_from: Option<ProgramPoint>,
    pub live_until: Option<ProgramPoint>,
    pub last_span: Span,
}

#[derive(Debug, Clone, PartialEq, Eq)]
pub struct VariableReport {
    pub uses: Vec<VariableUse>,
    pub summaries: Vec<VariableSummary>,
}

/// The summaries that are not of temporaries, in order.
pub open spec fn user_summaries(s: Seq<VariableSummary>) -> Seq<VariableSummary>
    decreases s.len(),
{
    if s.len() == 0 {
        Seq::empty()
    } else if s.last().temp {
        user_summaries(s.drop_last())
    } else {
        user_summaries(s.drop_last()).push(s.last())
    }
}

/// The first summary, from index `i` on, of the local.
pub open spec fn first_summary_of(summaries: Seq<VariableSummary>, local: LocalId, i: int) -> Option<int>
    decreases summaries.len() - i,
{
    if i < 0 || i >= summaries.len() {
        None
    } else if summaries[i].local == local {
        Some(i)
    } else {
        first_summary_of(summaries, local, i + 1)
    }
}

impl VariableReport {
    /// The summaries of the variables the program names, leaving out temporaries.
    pub fn user_variables(&self) -> (r: Vec<&VariableSummary>)
        ensures
            r@.map_values(|s: &VariableSummary| *s) == user_summaries(self.summaries@),
    {
        let mut r: Vec<&VariableSummary> = Vec::new();
        let mut i: usize = 0;
        while i < self.summaries.len()
            invariant
                i <= self.summaries@.len(),
                r@.map_values(|s: &VariableSummary| *s) == user_summaries(self.summaries@.take(i as int)),
            decreases self.summaries@.len() - i,
        {
            let s = &self.summaries[i];
            if !s.temp {
                r.push(s);
            }
            proof {
                let next = self.summaries@.take(i + 1);
                assert(next.drop_last() =~= self.summaries@.take(i as int));
                assert(r@.map_values(|s: &VariableSummary| *s) =~= user_summaries(next));
            }
            i += 1;
        }
        proof {
            assert(self.summaries@.take(i as int) =~= self.summaries@);
        }
        r
    }

    /// The first summary of the local.
    pub fn summary(&self, local: LocalId) -> (r: Option<&VariableSummary>)
        ensures
            match first_summary_of(self.summaries@, local, 0) {
                Some(i) => r == Some(&self.summaries@[i]),
                None => r is None,
            },
    {
        let mut i: usize = 0;
        while i < self.summaries.len()
            invariant
                i <= self.summaries@.len(),
                first_summary_of(self.summaries@, local, 0) == first_summary_of(self.summaries@, local, i as int),
            decreases self.summaries@.len() - i,
        {
            if self.summaries[i].local == local {
                return Some(&self.summaries[i]);
            }
            i += 1;
        }
        None
    }
}

/// The summary after a use of its variable: a storage start sets where it is first live
/// (once), a storage end or drop where it is last live, a read or write counts, and every
/// use moves the last span.
pub open spec fn after_use(s: VariableSummary, kind: VariableUseKind, point: ProgramPoint, span: Span) -> VariableSummary {
    let t = match kind {
        VariableUseKind::StorageLive => VariableSummary {
            live_from: if s.live_from is Some { s.live_from } else { Some(point) },
            ..s
        },
        VariableUseKind::StorageDead | VariableUseKind::Drop => VariableSummary { live_until: Some(point), ..s },
        VariableUseKind::Read => VariableSummary { reads: (s.reads + 1) as usize, ..s },
        VariableUseKind::Write => VariableSummary { writes: (s.writes + 1) as usize, ..s },
    };
    VariableSummary { last_span: span, ..t }
}

/// Records a use of `local` in its summary and in the list of uses; a local without a
/// summary is ignored.
pub fn record_use(
    uses: &mut Vec<VariableUse>,
    summaries: &mut Vec<VariableSummary>,
    local: LocalId,
    kind: VariableUseKind,
    point: ProgramPoint,
    span: Span,
    projection: Vec<String>,
)
    requires
        local.0 < old(summaries)@.len() ==> old(summaries)@[local.0 as int].reads < usize::MAX
            && old(summaries)@[local.0 as int].writes < usize::MAX,
    ensures
        local.0 >= old(summaries)@.len() ==> final(uses)@ == old(uses)@ && final(summaries)@ == old(summaries)@,
        local.0 < old(summaries)@.len() ==> {
            let s = old(summaries)@[local.0 as int];
            &&& final(summaries)@ == old(summaries)@.update(local.0 as int, after_use(s, kind, point, span))
            &&& final(uses)@.len() == old(uses)@.len() + 1
            &&& final(uses)@.drop_last() == old(uses)@
            &&& final(uses)@.last().local == local
            &&& final(uses)@.last().name@ == s.name@
            &&& final(uses)@.last().kind == kind
            &&& final(uses)@.last().point == point
            &&& final(uses)@.last().span == span
            &&& final(uses)@.last().projection == projection
        },
{
    if local.0 >= summaries.len() {
        return;
    }
    let i = local.0;
    let mut summary = summaries.remove(i);
    match kind {
        VariableUseKind::StorageLive => {
            if summary.live_from.is_none() {
                summary.live_from = Some(point);
            }
        },
        VariableUseKind::StorageDead | VariableUseKind::Drop => {
            summary.live_until = Some(point);
        },
        VariableUseKind::Read => summary.reads = summary.reads + 1,
        VariableUseKind::Write => summary.writes = summary.writes + 1,
    }
    summary.last_span = span;
    let name = summary.name.clone();
    summaries.insert(i, summary);
    assert(summaries@ =~= old(summaries)@.update(i as int, after_use(old(summaries)@[i as int], kind, point, span)));
    uses.push(VariableUse { local, name, kind, point, span, projection });
}


/// A use of a local, as the tracker meets it in the function.
pub ghost struct UseEvent {
    pub local: LocalId,
    pub kind: VariableUseKind,
    pub point: ProgramPoint,
    pub span: Span,
    pub projection: Seq<Seq<char>>,
}

/// The name a projection step is recorded under: the field's name, or `[index]`.
pub open spec fn projection_name(e: ProjectionElem) -> Seq<char> {
    match e {
        ProjectionElem::Field(name) => name@,
        ProjectionElem::Index(_) => "[index]"@,
    }
}

pub open spec fn projection_names(p: Seq<ProjectionElem>) -> Seq<Seq<char>> {
    p.map_values(|e: ProjectionElem| projection_name(e))
}

pub open spec fn place_event(p: Place, kind: VariableUseKind, point: ProgramPoint, span: Span) -> UseEvent {
    UseEvent { local: p.local, kind, point, span, projection: projection_names(p.projection@) }
}

pub open spec fn local_event(l: LocalId, kind: VariableUseKind, point: ProgramPoint, span: Span) -> UseEvent {
    UseEvent { local: l, kind, point, span, projection: Seq::empty() }
}

/// Reading an operand reads the place it copies or moves; a constant reads nothing.
pub open spec fn operand_events(o: Operand, point: ProgramPoint, span: Span) -> Seq<UseEvent> {
    match o {
        Operand::Copy(p) => seq![place_event(p, VariableUseKind::Read, point, span)],
        Operand::Move(p) => seq![place_event(p, VariableUseKind::Read, point, span)],
        Operand::Constant(_) => Seq::empty(),
    }
}

pub open spec fn operands_events(os: Seq<Operand>, point: ProgramPoint, span: Span) -> Seq<UseEvent>
    decreases os.len(),
{
    if os.len() == 0 {
        Seq::empty()
    } else {
        operands_events(os.drop_last(), point, span) + operand_events(os.last(), point, span)
    }
}

pub open spec fn field_operands(fields: Seq<(String, Operand)>) -> Seq<Operand> {
    fields.map_values(|f: (String, Operand)| f.1)
}

pub open spec fn rvalue_events(r: Rvalue, point: ProgramPoint, span: Span) -> Seq<UseEvent> {
    match r {
        Rvalue::Use(o) => operand_events(o, point, span),
        Rvalue::ResultOk(o) => operand_events(o, point, span),
        Rvalue::ResultErr(o) => operand_events(o, point, span),
        Rvalue::UnaryOp { operand, .. } => operand_events(operand, point, span),
        Rvalue::BinaryOp { left, right, .. } => operand_events(left, point, span) + operand_events(right, point, span),
        Rvalue::AggregateStruct { fields, .. } => operands_events(field_operands(fields@), point, span),
        Rvalue::AggregateArray { elements } => operands_events(elements@, point, span),
        Rvalue::RepeatArray { value, .. } => operand_events(value, point, span),
    }
}

/// Storage markers and drops use their local; an assignment writes its place, then reads
/// its operands.
pub open spec fn statement_events(s: Statement, point: ProgramPoint) -> Seq<UseEvent> {
    match s.kind {
        StatementKind::StorageLive(l) => seq![local_event(l, VariableUseKind::StorageLive, point, s.span)],
        StatementKind::StorageDead(l) => seq![local_event(l, VariableUseKind::StorageDead, point, s.span)],
        StatementKind::Drop(l) => seq![local_event(l, VariableUseKind::Drop, point, s.span)],
        StatementKind::Assign(place, value) => seq![place_event(place, VariableUseKind::Write, point, s.span)]
            + rvalue_events(value, point, s.span),
        StatementKind::Nop => Seq::empty(),
    }
}

/// The uses in the first `n` statements of a block, each at its index.
pub open spec fn statements_events(block: BasicBlockId, ss: Seq<Statement>, n: int) -> Seq<UseEvent>
    decreases n,
{
    if n <= 0 || n > ss.len() {
        Seq::empty()
    } else {
        statements_events(block, ss, n - 1) + statement_events(
            ss[n - 1],
            ProgramPoint::Statement { block, index: (n - 1) as usize },
        )
    }
}

/// The uses in a terminator, all under the function's span.
pub open spec fn terminator_events(t: TerminatorKind, point: ProgramPoint, span: Span) -> Seq<UseEvent> {
    match t {
        TerminatorKind::Goto { .. } => Seq::empty(),
        TerminatorKind::Return => Seq::empty(),
        TerminatorKind::Unreachable => Seq::empty(),
        TerminatorKind::Branch { condition, .. } => operand_events(condition, point, span),
        TerminatorKind::Match { discriminant, .. } => operand_events(discriminant, point, span),
        TerminatorKind::Call { callee, args, destination, .. } => operand_events(callee, point, span)
            + operands_events(args@, point, span) + destination_events(destination, point, span),
        TerminatorKind::IterNext { iterator, binding, .. } => seq![
            place_event(iterator, VariableUseKind::Read, point, span),
            local_event(binding, VariableUseKind::Write, point, span),
        ],
        TerminatorKind::Try { operand, ok_local, err_local, .. } => operand_events(operand, point, span) + seq![
            local_event(ok_local, VariableUseKind::Write, point, span),
            local_event(err_local, VariableUseKind::Write, point, span),
        ],
    }
}

/// A call writes its destination, when it has one.
pub open spec fn destination_events(d: Option<Place>, point: ProgramPoint, span: Span) -> Seq<UseEvent> {
    match d {
        Some(p) => seq![place_event(p, VariableUseKind::Write, point, span)],
        None => Seq::empty(),
    }
}

pub open spec fn block_events(b: BasicBlockData, span: Span) -> Seq<UseEvent> {
    statements_events(b.id, b.statements@, b.statements@.len() as int) + terminator_events(
        b.terminator,
        ProgramPoint::Terminator { block: b.id },
        span,
    )
}

/// The uses in the first `n` blocks, block after block.
pub open spec fn blocks_events(bs: Seq<BasicBlockData>, n: int, span: Span) -> Seq<UseEvent>
    decreases n,
{
    if n <= 0 || n > bs.len() {
        Seq::empty()
    } else {
        blocks_events(bs, n - 1, span) + block_events(bs[n - 1], span)
    }
}

/// Every use of a local in the function, in the order of its blocks and statements.
pub open spec fn function_events(f: MirFunction) -> Seq<UseEvent> {
    blocks_events(f.blocks@, f.blocks@.len() as int, f.span)
}

/// A summary as plain values.
pub ghost struct SummaryView {
    pub local: LocalId,
    pub name: Seq<char>,
    pub ty: Seq<char>,
    pub mutable: bool,
    pub temp: bool,
    pub reads: int,
    pub writes: int,
    pub live_from: Option<ProgramPoint>,
    pub live_until: Option<ProgramPoint>,
    pub last_span: Span,
}

/// A recorded use as plain values.
pub ghost struct UseView {
    pub local: LocalId,
    pub name: Seq<char>,
    pub kind: VariableUseKind,
    pub point: ProgramPoint,
    pub span: Span,
    pub projection: Seq<Seq<char>>,
}

pub open spec fn summary_view(s: VariableSummary) -> SummaryView {
    SummaryView {
        local: s.local,
        name: s.name@,
        ty: s.ty@,
        mutable: s.mutable,
        temp: s.temp,
        reads: s.reads as int,
        writes: s.writes as int,
        live_from: s.live_from,
        live_until: s.live_until,
        last_span: s.last_span,
    }
}

pub open spec fn summary_views(s: Seq<VariableSummary>) -> Seq<SummaryView> {
    s.map_values(|v: VariableSummary| summary_view(v))
}

pub open spec fn use_view(u: VariableUse) -> UseView {
    UseView {
        local: u.local,
        name: u.name@,
        kind: u.kind,
        point: u.point,
        span: u.span,
        projection: u.projection@.map_values(|p: String| p@),
    }
}

pub open spec fn use_views(u: Seq<VariableUse>) -> Seq<UseView> {
    u.map_values(|v: VariableUse| use_view(v))
}

/// The summary a local starts from: nothing counted and nothing live, its declaration's
/// span as the last one.
pub open spec fn initial_summary(l: LocalDecl) -> SummaryView {
    SummaryView {
        local: l.id,
        name: l.name@,
        ty: type_text(l.ty),
        mutable: l.mutable,
        temp: l.temp,
        reads: 0,
        writes: 0,
        live_from: None,
        live_until: None,
        last_span: l.span,
    }
}

pub open spec fn initial_summaries(locals: Seq<LocalDecl>) -> Seq<SummaryView> {
    locals.map_values(|l: LocalDecl| initial_summary(l))
}

/// A summary after one more use of its local, as `after_use` over plain values.
pub open spec fn applied(s: SummaryView, e: UseEvent) -> SummaryView {
    let t = match e.kind {
        VariableUseKind::StorageLive => SummaryView {
            live_from: if s.live_from is Some { s.live_from } else { Some(e.point) },
            ..s
        },
        VariableUseKind::StorageDead | VariableUseKind::Drop => SummaryView { live_until: Some(e.point), ..s },
        VariableUseKind::Read => SummaryView { reads: s.reads + 1, ..s },
        VariableUseKind::Write => SummaryView { writes: s.writes + 1, ..s },
    };
    SummaryView { last_span: e.span, ..t }
}

/// The summaries after the events, in order; an event of a local without a summary
/// changes nothing.
pub open spec fn apply_events(s: Seq<SummaryView>, es: Seq<UseEvent>) -> Seq<SummaryView>
    decreases es.len(),
{
    if es.len() == 0 {
        s
    } else {
        let prev = apply_events(s, es.drop_last());
        let e = es.last();
        if e.local.0 < prev.len() {
            prev.update(e.local.0 as int, applied(prev[e.local.0 as int], e))
        } else {
            prev
        }
    }
}

/// The uses the events leave in the report: one per event of a local with a summary,
/// under that local's name.
pub open spec fn recorded(names: Seq<Seq<char>>, es: Seq<UseEvent>) -> Seq<UseView>
    decreases es.len(),
{
    if es.len() == 0 {
        Seq::empty()
    } else {
        let e = es.last();
        recorded(names, es.drop_last()) + if e.local.0 < names.len() {
            seq![UseView { local: e.local, name: names[e.local.0 as int], kind: e.kind, point: e.point, span: e.span, projection: e.projection }]
        } else {
            Seq::empty()
        }
    }
}

pub open spec fn names_of(s: Seq<SummaryView>) -> Seq<Seq<char>> {
    s.map_values(|v: SummaryView| v.name)
}

/// Room for `k` more uses in every count.
pub open spec fn counts_below(s: Seq<SummaryView>, k: int) -> bool {
    forall|i: int| #![trigger s[i]] 0 <= i < s.len() ==> s[i].reads + k < usize::MAX && s[i].writes + k < usize::MAX
}

pub proof fn lemma_apply_events_concat(s: Seq<SummaryView>, a: Seq<UseEvent>, b: Seq<UseEvent>)
    ensures
        apply_events(s, a + b) == apply_events(apply_events(s, a), b),
    decreases b.len(),
{
    if b.len() == 0 {
        assert(a + b =~= a);
    } else {
        assert((a + b).drop_last() =~= a + b.drop_last());
        lemma_apply_events_concat(s, a, b.drop_last());
    }
}

pub proof fn lemma_recorded_concat(names: Seq<Seq<char>>, a: Seq<UseEvent>, b: Seq<UseEvent>)
    ensures
        recorded(names, a + b) == recorded(names, a) + recorded(names, b),
    decreases b.len(),
{
    if b.len() == 0 {
        assert(a + b =~= a);
        assert(recorded(names, a) + recorded(names, b) =~= recorded(names, a));
    } else {
        assert((a + b).drop_last() =~= a + b.drop_last());
        lemma_recorded_concat(names, a, b.drop_last());
        assert(recorded(names, a + b) =~= recorded(names, a) + recorded(names, b));
    }
}

/// Applying events keeps every summary's local, name, type and flags, and raises each
/// count by at most the number of events.
pub proof fn lemma_apply_events_frame(s: Seq<SummaryView>, es: Seq<UseEvent>)
    ensures
        apply_events(s, es).len() == s.len(),
        names_of(apply_events(s, es)) == names_of(s),
        forall|i: int|
            #![trigger apply_events(s, es)[i]]
            0 <= i < s.len() ==> {
                &&& apply_events(s, es)[i].local == s[i].local
                &&& apply_events(s, es)[i].ty == s[i].ty
                &&& apply_events(s, es)[i].mutable == s[i].mutable
                &&& apply_events(s, es)[i].temp == s[i].temp
                &&& s[i].reads <= apply_events(s, es)[i].reads <= s[i].reads + es.len()
                &&& s[i].writes <= apply_events(s, es)[i].writes <= s[i].writes + es.len()
            },
    decreases es.len(),
{
    if es.len() > 0 {
        lemma_apply_events_frame(s, es.drop_last());
        assert(names_of(apply_events(s, es)) =~= names_of(s));
    }
}

/// How many of the events are of kind `kind` on local `l`.
pub open spec fn count_uses(es: Seq<UseEvent>, l: LocalId, kind: VariableUseKind) -> int
    decreases es.len(),
{
    if es.len() == 0 {
        0
    } else {
        count_uses(es.drop_last(), l, kind) + if es.last().local == l && es.last().kind == kind { 1int } else { 0int }
    }
}

/// A local's read count is the number of reads of it among the events, and likewise its
/// write count.
pub proof fn lemma_counts_are_uses(s: Seq<SummaryView>, es: Seq<UseEvent>, i: int)
    requires
        0 <= i < s.len(),
        i <= usize::MAX,
        s[i].local == LocalId(i as usize),
    ensures
        apply_events(s, es)[i].reads == s[i].reads + count_uses(es, LocalId(i as usize), VariableUseKind::Read),
        apply_events(s, es)[i].writes == s[i].writes + count_uses(es, LocalId(i as usize), VariableUseKind::Write),
    decreases es.len(),
{
    if es.len() > 0 {
        lemma_counts_are_uses(s, es.drop_last(), i);
        lemma_apply_events_frame(s, es.drop_last());
    }
}

/// A local is live from the point of the first storage start among the events, when the
/// summary had no such point before.
pub open spec fn first_point(es: Seq<UseEvent>, l: LocalId, kind: VariableUseKind) -> Option<ProgramPoint>
    decreases es.len(),
{
    if es.len() == 0 {
        None
    } else {
        match first_point(es.drop_last(), l, kind) {
            Some(p) => Some(p),
            None => if es.last().local == l && es.last().kind == kind { Some(es.last().point) } else { None },
        }
    }
}

pub proof fn lemma_live_from_is_first(s: Seq<SummaryView>, es: Seq<UseEvent>, i: int)
    requires
        0 <= i < s.len(),
        i <= usize::MAX,
        s[i].local == LocalId(i as usize),
        s[i].live_from is None,
    ensures
        apply_events(s, es)[i].live_from == first_point(es, LocalId(i as usize), VariableUseKind::StorageLive),
    decreases es.len(),
{
    if es.len() > 0 {
        lemma_live_from_is_first(s, es.drop_last(), i);
        lemma_apply_events_frame(s, es.drop_last());
    }
}

proof fn lemma_after_use_view(s: VariableSummary, kind: VariableUseKind, point: ProgramPoint, span: Span, e: UseEvent)
    requires
        e.kind == kind,
        e.point == point,
        e.span == span,
        s.reads < usize::MAX,
        s.writes < usize::MAX,
    ensures
        summary_view(after_use(s, kind, point, span)) == applied(summary_view(s), e),
{
}

/// Records one event: the summary of its local is updated and the use appended.
fn record_event(
    uses: &mut Vec<VariableUse>,
    summaries: &mut Vec<VariableSummary>,
    local: LocalId,
    kind: VariableUseKind,
    point: ProgramPoint,
    span: Span,
    projection: Vec<String>,
    Ghost(e): Ghost<UseEvent>,
)
    requires
        e == (UseEvent { local, kind, point, span, projection: projection@.map_values(|p: String| p@) }),
        counts_below(summary_views(old(summaries)@), 1),
    ensures
        summary_views(final(summaries)@) == apply_events(summary_views(old(summaries)@), seq![e]),
        use_views(final(uses)@) == use_views(old(uses)@) + recorded(names_of(summary_views(old(summaries)@)), seq![e]),
{
    let ghost sv = summary_views(summaries@);
    proof {
        assert(seq![e].drop_last() =~= Seq::<UseEvent>::empty());
        if local.0 < summaries@.len() {
            assert(sv[local.0 as int] == summary_view(summaries@[local.0 as int]));
        }
    }
    record_use(uses, summaries, local, kind, point, span, projection);
    proof {
        assert(apply_events(sv, seq![e].drop_last()) == sv);
        assert(recorded(names_of(sv), seq![e].drop_last()) == Seq::<UseView>::empty());
        assert(seq![e].last() == e);
        if local.0 < old(summaries)@.len() {
            let s = old(summaries)@[local.0 as int];
            lemma_after_use_view(s, kind, point, span, e);
            assert(summary_views(summaries@) =~= sv.update(local.0 as int, applied(sv[local.0 as int], e)));
            assert(names_of(sv)[local.0 as int] == s.name@);
            let u = uses@.last();
            assert(uses@.drop_last() == old(uses)@);
            assert(use_view(u) == (UseView { local: e.local, name: names_of(sv)[e.local.0 as int], kind: e.kind, point: e.point, span: e.span, projection: e.projection }));
            assert(use_views(uses@) =~= use_views(old(uses)@) + recorded(names_of(sv), seq![e]));
        } else {
            assert(summary_views(summaries@) =~= apply_events(sv, seq![e]));
            assert(use_views(uses@) =~= use_views(old(uses)@) + recorded(names_of(sv), seq![e]));
        }
    }
}

/// The summaries and uses went from the old ones to the new ones by the events.
pub open spec fn replayed(
    old_s: Seq<VariableSummary>,
    old_u: Seq<VariableUse>,
    new_s: Seq<VariableSummary>,
    new_u: Seq<VariableUse>,
    es: Seq<UseEvent>,
) -> bool {
    &&& summary_views(new_s) == apply_events(summary_views(old_s), es)
    &&& use_views(new_u) == use_views(old_u) + recorded(names_of(summary_views(old_s)), es)
}

proof fn lemma_replayed_empty(s: Seq<VariableSummary>, u: Seq<VariableUse>)
    ensures
        replayed(s, u, s, u, Seq::empty()),
{
    assert(use_views(u) + recorded(names_of(summary_views(s)), Seq::<UseEvent>::empty()) =~= use_views(u));
}

proof fn lemma_replayed_chain(
    s0: Seq<VariableSummary>,
    u0: Seq<VariableUse>,
    s1: Seq<VariableSummary>,
    u1: Seq<VariableUse>,
    s2: Seq<VariableSummary>,
    u2: Seq<VariableUse>,
    a: Seq<UseEvent>,
    b: Seq<UseEvent>,
)
    requires
        replayed(s0, u0, s1, u1, a),
        replayed(s1, u1, s2, u2, b),
    ensures
        replayed(s0, u0, s2, u2, a + b),
{
    let v0 = summary_views(s0);
    lemma_apply_events_concat(v0, a, b);
    lemma_apply_events_frame(v0, a);
    lemma_recorded_concat(names_of(v0), a, b);
    assert(use_views(u2) =~= use_views(u0) + recorded(names_of(v0), a + b));
}

/// With `k` more uses of room, `a` uses leave room for `k - a.len()`.
proof fn lemma_counts_after(v: Seq<SummaryView>, a: Seq<UseEvent>, k: int)
    requires
        counts_below(v, k),
        a.len() <= k,
    ensures
        counts_below(apply_events(v, a), k - a.len()),
{
    lemma_apply_events_frame(v, a);
    let w = apply_events(v, a);
    assert forall|i: int| #![trigger w[i]] 0 <= i < w.len() implies w[i].reads + (k - a.len()) < usize::MAX
        && w[i].writes + (k - a.len()) < usize::MAX by {
        assert(v[i].reads + k < usize::MAX);
    }
}

fn projection_names_of(place: &Place) -> (v: Vec<String>)
    ensures
        v@.map_values(|p: String| p@) == projection_names(place.projection@),
{
    let mut v: Vec<String> = Vec::new();
    let mut i: usize = 0;
    while i < place.projection.len()
        invariant
            i <= place.projection@.len(),
            v@.map_values(|p: String| p@) == projection_names(place.projection@.take(i as int)),
        decreases place.projection@.len() - i,
    {
        let name = match &place.projection[i] {
            ProjectionElem::Field(name) => name.clone(),
            ProjectionElem::Index(_) => owned("[index]"),
        };
        assert(name@ == projection_name(place.projection@[i as int]));
        let ghost before = v@;
        v.push(name);
        proof {
            assert(place.projection@.take(i + 1) =~= place.projection@.take(i as int).push(place.projection@[i as int]));
            assert(v@ == before.push(name));
            assert(v@.map_values(|p: String| p@) =~= before.map_values(|p: String| p@).push(name@));
            assert(projection_names(place.projection@.take(i + 1)) =~= projection_names(place.projection@.take(i as int)).push(projection_name(place.projection@[i as int])));
        }
        i += 1;
    }
    assert(place.projection@.take(i as int) =~= place.projection@);
    v
}

fn record_place_use(
    uses: &mut Vec<VariableUse>,
    summaries: &mut Vec<VariableSummary>,
    place: &Place,
    kind: VariableUseKind,
    point: ProgramPoint,
    span: Span,
)
    requires
        counts_below(summary_views(old(summaries)@), 1),
    ensures
        replayed(old(summaries)@, old(uses)@, final(summaries)@, final(uses)@, seq![place_event(*place, kind, point, span)]),
{
    let projection = projection_names_of(place);
    record_event(uses, summaries, place.local, kind, point, span, projection, Ghost(place_event(*place, kind, point, span)));
}

fn record_local_use(
    uses: &mut Vec<VariableUse>,
    summaries: &mut Vec<VariableSummary>,
    local: LocalId,
    kind: VariableUseKind,
    point: ProgramPoint,
    span: Span,
)
    requires
        counts_below(summary_views(old(summaries)@), 1),
    ensures
        replayed(old(summaries)@, old(uses)@, final(summaries)@, final(uses)@, seq![local_event(local, kind, point, span)]),
{
    let projection: Vec<String> = Vec::new();
    proof {
        assert(projection@.map_values(|p: String| p@) =~= Seq::<Seq<char>>::empty());
    }
    record_event(uses, summaries, local, kind, point, span, projection, Ghost(local_event(local, kind, point, span)));
}

fn collect_operand_use(
    uses: &mut Vec<VariableUse>,
    summaries: &mut Vec<VariableSummary>,
    operand: &Operand,
    point: ProgramPoint,
    span: Span,
)
    requires
        counts_below(summary_views(old(summaries)@), operand_events(*operand, point, span).len() as int),
    ensures
        replayed(old(summaries)@, old(uses)@, final(summaries)@, final(uses)@, operand_events(*operand, point, span)),
{
    match operand {
        Operand::Copy(place) => record_place_use(uses, summaries, place, VariableUseKind::Read, point, span),
        Operand::Move(place) => record_place_use(uses, summaries, place, VariableUseKind::Read, point, span),
        Operand::Constant(_) => {
            proof {
                lemma_replayed_empty(summaries@, uses@);
            }
        },
    }
}

fn collect_operands(
    uses: &mut Vec<VariableUse>,
    summaries: &mut Vec<VariableSummary>,
    operands: &Vec<Operand>,
    point: ProgramPoint,
    span: Span,
)
    requires
        counts_below(summary_views(old(summaries)@), operands_events(operands@, point, span).len() as int),
    ensures
        replayed(old(summaries)@, old(uses)@, final(summaries)@, final(uses)@, operands_events(operands@, point, span)),
{
    let ghost s0 = summaries@;
    let ghost u0 = uses@;
    let ghost total = operands_events(operands@, point, span).len() as int;
    proof {
        lemma_replayed_empty(s0, u0);
        assert(operands@.take(0) =~= Seq::<Operand>::empty());
    }
    let mut i: usize = 0;
    while i < operands.len()
        invariant
            i <= operands@.len(),
            total == operands_events(operands@, point, span).len(),
            replayed(s0, u0, summaries@, uses@, operands_events(operands@.take(i as int), point, span)),
            counts_below(summary_views(s0), total),
        decreases operands@.len() - i,
    {
        let ghost s1 = summaries@;
        let ghost u1 = uses@;
        let ghost done = operands_events(operands@.take(i as int), point, span);
        proof {
            let next = operands@.take(i + 1);
            assert(next.drop_last() =~= operands@.take(i as int));
            lemma_operands_events_prefix(operands@, i + 1, point, span);
            lemma_counts_after(summary_views(s0), done, total);
        }
        collect_operand_use(uses, summaries, &operands[i], point, span);
        proof {
            lemma_replayed_chain(s0, u0, s1, u1, summaries@, uses@, done, operand_events(operands@[i as int], point, span));
        }
        i += 1;
    }
    assert(operands@.take(i as int) =~= operands@);
}

/// The uses of a prefix of the operands are no more than those of all of them.
proof fn lemma_operands_events_prefix(os: Seq<Operand>, k: int, point: ProgramPoint, span: Span)
    requires
        0 <= k <= os.len(),
    ensures
        operands_events(os.take(k), point, span).len() <= operands_events(os, point, span).len(),
    decreases os.len() - k,
{
    if k < os.len() {
        lemma_operands_events_prefix(os, k + 1, point, span);
        assert(os.take(k + 1).drop_last() =~= os.take(k));
    } else {
        assert(os.take(k) =~= os);
    }
}

proof fn lemma_operands_events_push(os: Seq<Operand>, o: Operand, point: ProgramPoint, span: Span)
    ensures
        operands_events(os.push(o), point, span) == operands_events(os, point, span) + operand_events(o, point, span),
{
    assert(os.push(o).drop_last() =~= os);
}

fn collect_field_operands(
    uses: &mut Vec<VariableUse>,
    summaries: &mut Vec<VariableSummary>,
    fields: &Vec<(String, Operand)>,
    point: ProgramPoint,
    span: Span,
)
    requires
        counts_below(summary_views(old(summaries)@), operands_events(field_operands(fields@), point, span).len() as int),
    ensures
        replayed(old(summaries)@, old(uses)@, final(summaries)@, final(uses)@, operands_events(field_operands(fields@), point, span)),
{
    let ghost s0 = summaries@;
    let ghost u0 = uses@;
    let ghost all = field_operands(fields@);
    let ghost total = operands_events(all, point, span).len() as int;
    proof {
        lemma_replayed_empty(s0, u0);
        assert(field_operands(fields@.take(0)) =~= Seq::<Operand>::empty());
    }
    let mut i: usize = 0;
    while i < fields.len()
        invariant
            i <= fields@.len(),
            all == field_operands(fields@),
            total == operands_events(all, point, span).len(),
            replayed(s0, u0, summaries@, uses@, operands_events(field_operands(fields@.take(i as int)), point, span)),
            counts_below(summary_views(s0), total),
        decreases fields@.len() - i,
    {
        let ghost s1 = summaries@;
        let ghost u1 = uses@;
        let ghost prefix = field_operands(fields@.take(i as int));
        let ghost done = operands_events(prefix, point, span);
        proof {
            assert(field_operands(fields@.take(i + 1)) =~= prefix.push(fields@[i as int].1));
            assert(field_operands(fields@.take(i + 1)) =~= all.take(i + 1));
            lemma_operands_events_push(prefix, fields@[i as int].1, point, span);
            lemma_operands_events_prefix(all, i + 1, point, span);
            lemma_counts_after(summary_views(s0), done, total);
        }
        collect_operand_use(uses, summaries, &fields[i].1, point, span);
        proof {
            lemma_replayed_chain(s0, u0, s1, u1, summaries@, uses@, done, operand_events(fields@[i as int].1, point, span));
        }
        i += 1;
    }
    assert(fields@.take(i as int) =~= fields@);
}

fn collect_rvalue_uses(
    uses: &mut Vec<VariableUse>,
    summaries: &mut Vec<VariableSummary>,
    value: &Rvalue,
    point: ProgramPoint,
    span: Span,
)
    requires
        counts_below(summary_views(old(summaries)@), rvalue_events(*value, point, span).len() as int),
    ensures
        replayed(old(summaries)@, old(uses)@, final(summaries)@, final(uses)@, rvalue_events(*value, point, span)),
{
    match value {
        Rvalue::Use(operand) => collect_operand_use(uses, summaries, operand, point, span),
        Rvalue::ResultOk(operand) => collect_operand_use(uses, summaries, operand, point, span),
        Rvalue::ResultErr(operand) => collect_operand_use(uses, summaries, operand, point, span),
        Rvalue::UnaryOp { operand, .. } => collect_operand_use(uses, summaries, operand, point, span),
        Rvalue::BinaryOp { left, right, .. } => {
            let ghost s0 = summaries@;
            let ghost u0 = uses@;
            collect_operand_use(uses, summaries, left, point, span);
            let ghost s1 = summaries@;
            let ghost u1 = uses@;
            proof {
                lemma_counts_after(
                    summary_views(s0),
                    operand_events(*left, point, span),
                    rvalue_events(*value, point, span).len() as int,
                );
            }
            collect_operand_use(uses, summaries, right, point, span);
            proof {
                lemma_replayed_chain(s0, u0, s1, u1, summaries@, uses@, operand_events(*left, point, span), operand_events(*right, point, span));
            }
        },
        Rvalue::AggregateStruct { fields, .. } => collect_field_operands(uses, summaries, fields, point, span),
        Rvalue::AggregateArray { elements } => collect_operands(uses, summaries, elements, point, span),
        Rvalue::RepeatArray { value, .. } => collect_operand_use(uses, summaries, value, point, span),
    }
}

fn track_statement(
    uses: &mut Vec<VariableUse>,
    summaries: &mut Vec<VariableSummary>,
    statement: &Statement,
    point: ProgramPoint,
)
    requires
        counts_below(summary_views(old(summaries)@), statement_events(*statement, point).len() as int),
    ensures
        replayed(old(summaries)@, old(uses)@, final(summaries)@, final(uses)@, statement_events(*statement, point)),
{
    match &statement.kind {
        StatementKind::StorageLive(local) => {
            record_local_use(uses, summaries, *local, VariableUseKind::StorageLive, point, statement.span);
        },
        StatementKind::StorageDead(local) => {
            record_local_use(uses, summaries, *local, VariableUseKind::StorageDead, point, statement.span);
        },
        StatementKind::Drop(local) => {
            record_local_use(uses, summaries, *local, VariableUseKind::Drop, point, statement.span);
        },
        StatementKind::Assign(place, value) => {
            let ghost s0 = summaries@;
            let ghost u0 = uses@;
            let ghost first = seq![place_event(*place, VariableUseKind::Write, point, statement.span)];
            let ghost all = statement_events(*statement, point);
            record_place_use(uses, summaries, place, VariableUseKind::Write, point, statement.span);
            let ghost s1 = summaries@;
            let ghost u1 = uses@;
            proof {
                lemma_counts_after(summary_views(s0), first, all.len() as int);
            }
            collect_rvalue_uses(uses, summaries, value, point, statement.span);
            proof {
                lemma_replayed_chain(s0, u0, s1, u1, summaries@, uses@, first, rvalue_events(*value, point, statement.span));
            }
        },
        StatementKind::Nop => {
            proof {
                lemma_replayed_empty(summaries@, uses@);
            }
        },
    }
}

fn track_terminator(
    uses: &mut Vec<VariableUse>,
    summaries: &mut Vec<VariableSummary>,
    terminator: &TerminatorKind,
    point: ProgramPoint,
    span: Span,
)
    requires
        counts_below(summary_views(old(summaries)@), terminator_events(*terminator, point, span).len() as int),
    ensures
        replayed(old(summaries)@, old(uses)@, final(summaries)@, final(uses)@, terminator_events(*terminator, point, span)),
{
    let ghost s0 = summaries@;
    let ghost u0 = uses@;
    let ghost all = terminator_events(*terminator, point, span);
    match terminator {
        TerminatorKind::Goto { .. } | TerminatorKind::Return | TerminatorKind::Unreachable => {
            proof {
                lemma_replayed_empty(summaries@, uses@);
            }
        },
        TerminatorKind::Branch { condition, .. } => collect_operand_use(uses, summaries, condition, point, span),
        TerminatorKind::Match { discriminant, .. } => collect_operand_use(uses, summaries, discriminant, point, span),
        TerminatorKind::Call { callee, args, destination, .. } => {
            let ghost a = operand_events(*callee, point, span);
            let ghost b = operands_events(args@, point, span);
            let ghost c = destination_events(*destination, point, span);
            collect_operand_use(uses, summaries, callee, point, span);
            let ghost s1 = summaries@;
            let ghost u1 = uses@;
            proof {
                lemma_counts_after(summary_views(s0), a, all.len() as int);
            }
            collect_operands(uses, summaries, args, point, span);
            let ghost s2 = summaries@;
            let ghost u2 = uses@;
            proof {
                lemma_replayed_chain(s0, u0, s1, u1, s2, u2, a, b);
                lemma_counts_after(summary_views(s0), a + b, all.len() as int);
            }
            match destination {
                Some(d) => record_place_use(uses, summaries, d, VariableUseKind::Write, point, span),
                None => {
                    proof {
                        lemma_replayed_empty(summaries@, uses@);
                    }
                },
            }
            proof {
                lemma_replayed_chain(s0, u0, s2, u2, summaries@, uses@, a + b, c);
                assert(a + b + c =~= all);
            }
        },
        TerminatorKind::IterNext { iterator, binding, .. } => {
            let ghost a = seq![place_event(*iterator, VariableUseKind::Read, point, span)];
            let ghost b = seq![local_event(*binding, VariableUseKind::Write, point, span)];
            record_place_use(uses, summaries, iterator, VariableUseKind::Read, point, span);
            let ghost s1 = summaries@;
            let ghost u1 = uses@;
            proof {
                lemma_counts_after(summary_views(s0), a, all.len() as int);
            }
            record_local_use(uses, summaries, *binding, VariableUseKind::Write, point, span);
            proof {
                lemma_replayed_chain(s0, u0, s1, u1, summaries@, uses@, a, b);
                assert(a + b =~= all);
            }
        },
        TerminatorKind::Try { operand, ok_local, err_local, .. } => {
            let ghost a = operand_events(*operand, point, span);
            let ghost b = seq![local_event(*ok_local, VariableUseKind::Write, point, span)];
            let ghost c = seq![local_event(*err_local, VariableUseKind::Write, point, span)];
            collect_operand_use(uses, summaries, operand, point, span);
            let ghost s1 = summaries@;
            let ghost u1 = uses@;
            proof {
                lemma_counts_after(summary_views(s0), a, all.len() as int);
            }
            record_local_use(uses, summaries, *ok_local, VariableUseKind::Write, point, span);
            let ghost s2 = summaries@;
            let ghost u2 = uses@;
            proof {
                lemma_replayed_chain(s0, u0, s1, u1, s2, u2, a, b);
                lemma_counts_after(summary_views(s0), a + b, all.len() as int);
            }
            record_local_use(uses, summaries, *err_local, VariableUseKind::Write, point, span);
            proof {
                lemma_replayed_chain(s0, u0, s2, u2, summaries@, uses@, a + b, c);
                assert(a + b + c =~= all);
            }
        },
    }
}

proof fn lemma_statements_events_mono(block: BasicBlockId, ss: Seq<Statement>, k: int, n: int)
    requires
        0 <= k <= n <= ss.len(),
    ensures
        statements_events(block, ss, k).len() <= statements_events(block, ss, n).len(),
    decreases n - k,
{
    if k < n {
        lemma_statements_events_mono(block, ss, k, n - 1);
    }
}

proof fn lemma_blocks_events_mono(bs: Seq<BasicBlockData>, k: int, n: int, span: Span)
    requires
        0 <= k <= n <= bs.len(),
    ensures
        blocks_events(bs, k, span).len() <= blocks_events(bs, n, span).len(),
    decreases n - k,
{
    if k < n {
        lemma_blocks_events_mono(bs, k, n - 1, span);
    }
}

/// Records every use of every local of the function, block by block and statement by
/// statement, and sums them up per local.
pub fn track_variables(function: &MirFunction) -> (r: VariableReport)
    requires
        function_events(*function).len() < usize::MAX,
    ensures
        summary_views(r.summaries@) == apply_events(initial_summaries(function.locals@), function_events(*function)),
        use_views(r.uses@) == recorded(names_of(initial_summaries(function.locals@)), function_events(*function)),
{
    let mut summaries: Vec<VariableSummary> = Vec::new();
    let mut k: usize = 0;
    while k < function.locals.len()
        invariant
            k <= function.locals@.len(),
            summary_views(summaries@) == initial_summaries(function.locals@.take(k as int)),
        decreases function.locals@.len() - k,
    {
        let local = &function.locals[k];
        let summary = VariableSummary {
            local: local.id,
            name: local.name.clone(),
            ty: local.ty.display_name(),
            mutable: local.mutable,
            temp: local.temp,
            reads: 0,
            writes: 0,
            live_from: None,
            live_until: None,
            last_span: local.span,
        };
        let ghost before = summaries@;
        summaries.push(summary);
        proof {
            assert(function.locals@.take(k + 1) =~= function.locals@.take(k as int).push(function.locals@[k as int]));
            assert(summary_views(summaries@) =~= summary_views(before).push(summary_view(summary)));
            assert(summary_views(summaries@) =~= initial_summaries(function.locals@.take(k + 1)));
        }
        k += 1;
    }
    proof {
        assert(function.locals@.take(k as int) =~= function.locals@);
    }
    let mut uses: Vec<VariableUse> = Vec::new();
    let ghost s_init = summaries@;
    let ghost u_init = uses@;
    let ghost init = summary_views(s_init);
    let ghost bs = function.blocks@;
    let ghost fspan = function.span;
    let ghost total = function_events(*function).len() as int;
    proof {
        lemma_replayed_empty(s_init, u_init);
        assert(blocks_events(bs, 0, fspan) =~= Seq::<UseEvent>::empty());
        assert(counts_below(init, total));
    }
    let mut b: usize = 0;
    while b < function.blocks.len()
        invariant
            bs == function.blocks@,
            fspan == function.span,
            total == blocks_events(bs, bs.len() as int, fspan).len(),
            total < usize::MAX,
            b <= bs.len(),
            init == summary_views(s_init),
            counts_below(init, total),
            u_init == Seq::<VariableUse>::empty(),
            replayed(s_init, u_init, summaries@, uses@, blocks_events(bs, b as int, fspan)),
        decreases bs.len() - b,
    {
        let block = &function.blocks[b];
        let ghost ss = block.statements@;
        let ghost before = blocks_events(bs, b as int, fspan);
        proof {
            assert(statements_events(block.id, ss, 0) =~= Seq::<UseEvent>::empty());
            assert(before + statements_events(block.id, ss, 0) =~= before);
            lemma_blocks_events_mono(bs, b + 1, bs.len() as int, fspan);
        }
        let mut i: usize = 0;
        while i < block.statements.len()
            invariant
                bs == function.blocks@,
                b < bs.len(),
                *block == bs[b as int],
                ss == block.statements@,
                i <= ss.len(),
                before == blocks_events(bs, b as int, fspan),
                before.len() + block_events(*block, fspan).len() <= total,
                init == summary_views(s_init),
                counts_below(init, total),
                replayed(s_init, u_init, summaries@, uses@, before + statements_events(block.id, ss, i as int)),
            decreases ss.len() - i,
        {
            let point = ProgramPoint::Statement { block: block.id, index: i };
            let ghost s1 = summaries@;
            let ghost u1 = uses@;
            let ghost done = before + statements_events(block.id, ss, i as int);
            let ghost step = statement_events(ss[i as int], point);
            proof {
                assert(statements_events(block.id, ss, i + 1) == statements_events(block.id, ss, i as int) + step);
                lemma_statements_events_mono(block.id, ss, i + 1, ss.len() as int);
                lemma_counts_after(init, done, total);
            }
            track_statement(&mut uses, &mut summaries, &block.statements[i], point);
            proof {
                lemma_replayed_chain(s_init, u_init, s1, u1, summaries@, uses@, done, step);
                assert(done + step =~= before + statements_events(block.id, ss, i + 1));
            }
            i += 1;
        }
        let point = ProgramPoint::Terminator { block: block.id };
        let ghost s1 = summaries@;
        let ghost u1 = uses@;
        let ghost done = before + statements_events(block.id, ss, ss.len() as int);
        let ghost step = terminator_events(block.terminator, point, fspan);
        proof {
            lemma_counts_after(init, done, total);
        }
        track_terminator(&mut uses, &mut summaries, &block.terminator, point, function.span);
        proof {
            lemma_replayed_chain(s_init, u_init, s1, u1, summaries@, uses@, done, step);
            assert(blocks_events(bs, b + 1, fspan) =~= done + step);
        }
        b += 1;
    }
    proof {
        assert(use_views(u_init) + recorded(names_of(init), function_events(*function)) =~= recorded(
            names_of(init),
            function_events(*function),
        ));
    }
    VariableReport { uses, summaries }
}
fn operand_use_count(o: &Operand) -> (n: u128)
    ensures
        forall|p: ProgramPoint, sp: Span| #[trigger] operand_events(*o, p, sp).len() == n,
        n <= 1,
{
    match o {
        Operand::Constant(_) => 0,
        _ => 1,
    }
}

fn operands_use_count(os: &Vec<Operand>) -> (n: u128)
    ensures
        forall|p: ProgramPoint, sp: Span| #[trigger] operands_events(os@, p, sp).len() == n,
        n <= os@.len(),
        n <= usize::MAX,
{
    let mut n: u128 = 0;
    let mut i: usize = 0;
    while i < os.len()
        invariant
            i <= os@.len(),
            n <= i,
            forall|p: ProgramPoint, sp: Span| #[trigger] operands_events(os@.take(i as int), p, sp).len() == n,
        decreases os@.len() - i,
    {
        let c = operand_use_count(&os[i]);
        proof {
            assert forall|p: ProgramPoint, sp: Span| #[trigger] operands_events(os@.take(i + 1), p, sp).len() == n + c by {
                assert(os@.take(i + 1).drop_last() =~= os@.take(i as int));
                assert(os@.take(i + 1).last() == os@[i as int]);
                assert(operands_events(os@.take(i + 1), p, sp) == operands_events(os@.take(i as int), p, sp) + operand_events(
                    os@[i as int],
                    p,
                    sp,
                ));
                assert(operand_events(os@[i as int], p, sp).len() == c);
            }
        }
        n = n + c;
        i += 1;
    }
    proof {
        assert(os@.take(i as int) =~= os@);
    }
    n
}

fn field_use_count(fields: &Vec<(String, Operand)>) -> (n: u128)
    ensures
        forall|p: ProgramPoint, sp: Span| #[trigger] operands_events(field_operands(fields@), p, sp).len() == n,
        n <= fields@.len(),
        n <= usize::MAX,
{
    let ghost ops = field_operands(fields@);
    let mut n: u128 = 0;
    let mut i: usize = 0;
    while i < fields.len()
        invariant
            i <= fields@.len(),
            n <= i,
            ops == field_operands(fields@),
            forall|p: ProgramPoint, sp: Span| #[trigger] operands_events(ops.take(i as int), p, sp).len() == n,
        decreases fields@.len() - i,
    {
        let c = operand_use_count(&fields[i].1);
        proof {
            assert forall|p: ProgramPoint, sp: Span| #[trigger] operands_events(ops.take(i + 1), p, sp).len() == n + c by {
                assert(ops.take(i + 1).drop_last() =~= ops.take(i as int));
                assert(ops.take(i + 1).last() == fields@[i as int].1);
                assert(operands_events(ops.take(i + 1), p, sp) == operands_events(ops.take(i as int), p, sp) + operand_events(
                    fields@[i as int].1,
                    p,
                    sp,
                ));
                assert(operand_events(fields@[i as int].1, p, sp).len() == c);
            }
        }
        n = n + c;
        i += 1;
    }
    proof {
        assert(ops.take(i as int) =~= ops);
    }
    n
}

fn statement_use_count(st: &Statement) -> (n: u128)
    ensures
        forall|p: ProgramPoint| #[trigger] statement_events(*st, p).len() == n,
{
    match &st.kind {
        StatementKind::Assign(_, value) => {
            let c = match value {
                Rvalue::Use(o) | Rvalue::ResultOk(o) | Rvalue::ResultErr(o) => operand_use_count(o),
                Rvalue::UnaryOp { operand, .. } => operand_use_count(operand),
                Rvalue::BinaryOp { left, right, .. } => operand_use_count(left) + operand_use_count(right),
                Rvalue::AggregateStruct { fields, .. } => field_use_count(fields),
                Rvalue::AggregateArray { elements } => operands_use_count(elements),
                Rvalue::RepeatArray { value, .. } => operand_use_count(value),
            };
            1 + c
        },
        StatementKind::Nop => 0,
        _ => 1,
    }
}

fn terminator_use_count(t: &TerminatorKind) -> (n: u128)
    ensures
        forall|p: ProgramPoint, sp: Span| #[trigger] terminator_events(*t, p, sp).len() == n,
{
    match t {
        TerminatorKind::Goto { .. } | TerminatorKind::Return | TerminatorKind::Unreachable => 0,
        TerminatorKind::Branch { condition, .. } => operand_use_count(condition),
        TerminatorKind::Match { discriminant, .. } => operand_use_count(discriminant),
        TerminatorKind::Call { callee, args, destination, .. } => {
            operand_use_count(callee) + operands_use_count(args) + if destination.is_some() { 1 } else { 0 }
        },
        TerminatorKind::IterNext { .. } => 2,
        TerminatorKind::Try { operand, .. } => operand_use_count(operand) + 2,
    }
}

/// Whether the function has fewer uses of locals than `usize::MAX`, which tracking its
/// variables asks.
pub fn events_fit_check(function: &MirFunction) -> (r: bool)
    ensures
        r == (function_events(*function).len() < usize::MAX),
{
    let bs = &function.blocks;
    let mut total: u128 = 0;
    let mut b: usize = 0;
    while b < bs.len()
        invariant
            b <= bs@.len(),
            *bs == function.blocks,
            total < usize::MAX,
            total == blocks_events(bs@, b as int, function.span).len(),
        decreases bs@.len() - b,
    {
        let block = &bs[b];
        let ss = &block.statements;
        let mut k: usize = 0;
        let mut sub: u128 = total;
        while k < ss.len()
            invariant
                b < bs@.len(),
                *bs == function.blocks,
                *block == bs@[b as int],
                *ss == block.statements,
                k <= ss@.len(),
                sub < usize::MAX,
                sub == blocks_events(bs@, b as int, function.span).len() + statements_events(block.id, ss@, k as int).len(),
            decreases ss@.len() - k,
        {
            let c = statement_use_count(&ss[k]);
            proof {
                let pt = ProgramPoint::Statement { block: block.id, index: k };
                assert(statement_events(ss@[k as int], pt).len() == c);
            }
            if c >= usize::MAX as u128 || sub + c >= usize::MAX as u128 {
                proof {
                    lemma_events_prefix(*function, b as int, k + 1);
                }
                return false;
            }
            sub = sub + c;
            k += 1;
        }
        let c = terminator_use_count(&block.terminator);
        proof {
            assert(terminator_events(block.terminator, ProgramPoint::Terminator { block: block.id }, function.span).len() == c);
            assert(blocks_events(bs@, b + 1, function.span) == blocks_events(bs@, b as int, function.span) + block_events(
                bs@[b as int],
                function.span,
            ));
        }
        if c >= usize::MAX as u128 || sub + c >= usize::MAX as u128 {
            proof {
                lemma_blocks_events_mono(bs@, b + 1, bs@.len() as int, function.span);
            }
            return false;
        }
        total = sub + c;
        b += 1;
    }
    true
}

/// The uses of the first `b` blocks and the first `k` statements of block `b` are no more
/// than all of the function's.
proof fn lemma_events_prefix(f: MirFunction, b: int, k: int)
    requires
        0 <= b < f.blocks@.len(),
        0 <= k <= f.blocks@[b].statements@.len(),
    ensures
        blocks_events(f.blocks@, b, f.span).len() + statements_events(f.blocks@[b].id, f.blocks@[b].statements@, k).len()
            <= function_events(f).len(),
{
    let bl = f.blocks@[b];
    lemma_statements_events_mono(bl.id, bl.statements@, k, bl.statements@.len() as int);
    lemma_blocks_events_mono(f.blocks@, b + 1, f.blocks@.len() as int, f.span);
    assert(blocks_events(f.blocks@, b + 1, f.span) == blocks_events(f.blocks@, b, f.span) + block_events(bl, f.span));
}

} // verus!
