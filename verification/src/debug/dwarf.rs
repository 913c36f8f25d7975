//! DWARF-style debug records: a line row per statement and terminator, and a record per
//! variable with where it is live.

use vstd::prelude::*;
use crate::ast::span::Span;
use crate::mir::nodes::{callable_name, callable_text};
use crate::mir::{BasicBlockData, MirFunction, MirProgram};
use crate::text::owned;
use super::source_map::{position_location, SourceFileId, SourceMap, SourceRange};
use super::var_tracking::{
    apply_events, block_events, blocks_events, destination_events, function_events, initial_summaries, operand_events,
    operands_events, rvalue_events, statement_events, statements_events, summary_views, terminator_events, track_variables,
    ProgramPoint, SummaryView, UseEvent,
};

verus! {

#[derive(Debug, Clone, PartialEq, Eq)]
pub struct DwarfLineRow {
    pub address: u64,
    pub span: Span,
    pub source: Option<SourceRange>,
}

#[derive(Debug, Clone, PartialEq, Eq)]
pub struct DwarfVariable {
    pub name: String,
    pub ty: String,
    pub mutable: bool,
    pub temp: bool,
    pub live_from: Option<ProgramPoint>,
    pub live_until: Option<ProgramPoint>,
    pub span: Span,
    pub source: Option<SourceRange>,
}

#[derive(Debug, Clone, PartialEq, Eq)]
pub struct DwarfFunction {
    pub name: String,
    pub low_pc: u64,
    pub high_pc: u64,
    pub span: Span,
    pub source: Option<SourceRange>,
    pub lines: Vec<DwarfLineRow>,
    pub variables: Vec<DwarfVariable>,
}

#[derive(Debug, Clone, PartialEq, Eq)]
pub struct DwarfUnit {
    pub name: String,
    pub functions: Vec<DwarfFunction>,
}

/// Both ends of the span can be looked up.
pub open spec fn span_fits(s: Span) -> bool {
    s.start.offset < usize::MAX && s.end.offset < usize::MAX
}

/// The source range a span resolves to when a source map and a file are given; none
/// otherwise.
pub open spec fn located(map: Option<&SourceMap>, file: Option<SourceFileId>, span: Span, r: Option<SourceRange>) -> bool {
    match (map, file) {
        (Some(m), Some(id)) => r matches Some(range) && range.file == id && Some(range.start) == position_location(
            m@,
            id,
            span.start,
        ) && Some(range.end) == position_location(m@, id, span.end),
        _ => r is None,
    }
}

/// The spans of the line rows of the first `n` blocks: each statement's, then the
/// function's for the terminator.
pub open spec fn row_spans(bs: Seq<BasicBlockData>, n: int, fspan: Span) -> Seq<Span>
    decreases n,
{
    if n <= 0 || n > bs.len() {
        Seq::empty()
    } else {
        row_spans(bs, n - 1, fspan) + bs[n - 1].statements@.map_values(|s: crate::mir::Statement| s.span).push(fspan)
    }
}

/// Every span the debug records of the function resolve.
pub open spec fn spans_fit(f: MirFunction) -> bool {
    &&& span_fits(f.span)
    &&& forall|b: int, s: int| 0 <= b < f.blocks@.len() && 0 <= s < f.blocks@[b].statements@.len()
        ==> #[trigger] span_fits(f.blocks@[b].statements@[s].span)
    &&& forall|l: int| 0 <= l < f.locals@.len() ==> #[trigger] span_fits(f.locals@[l].span)
}

/// The source range of a span, when a source map and a file are given.
fn locate(map: Option<&SourceMap>, file: Option<SourceFileId>, span: Span) -> (r: Option<SourceRange>)
    requires
        map is Some && file is Some ==> span_fits(span),
    ensures
        located(map, file, span, r),
{
    match map {
        Some(m) => match file {
            Some(id) => m.resolve_span(id, span),
            None => None,
        },
        None => None,
    }
}

/// A line row per statement and per terminator, numbered from zero.
fn build_line_rows(function: &MirFunction, map: Option<&SourceMap>, file: Option<SourceFileId>) -> (rows: Vec<DwarfLineRow>)
    requires
        map is Some && file is Some ==> spans_fit(*function),
    ensures
        rows@.len() == row_spans(function.blocks@, function.blocks@.len() as int, function.span).len(),
        forall|k: int| 0 <= k < rows@.len() ==> {
            let s = row_spans(function.blocks@, function.blocks@.len() as int, function.span)[k];
            &&& (#[trigger] rows@[k]).address == k
            &&& rows@[k].span == s
            &&& located(map, file, s, rows@[k].source)
        },
{
    let ghost bs = function.blocks@;
    let ghost fspan = function.span;
    let mut rows: Vec<DwarfLineRow> = Vec::new();
    let mut b: usize = 0;
    while b < function.blocks.len()
        invariant
            bs == function.blocks@,
            fspan == function.span,
            map is Some && file is Some ==> spans_fit(*function),
            b <= bs.len(),
            rows@.len() == row_spans(bs, b as int, fspan).len(),
            forall|k: int| 0 <= k < rows@.len() ==> {
                let s = row_spans(bs, b as int, fspan)[k];
                &&& (#[trigger] rows@[k]).address == k
                &&& rows@[k].span == s
                &&& located(map, file, s, rows@[k].source)
            },
        decreases bs.len() - b,
    {
        let block = &function.blocks[b];
        let ghost prefix = row_spans(bs, b as int, fspan);
        let ghost ss = block.statements@.map_values(|s: crate::mir::Statement| s.span);
        let mut i: usize = 0;
        while i < block.statements.len()
            invariant
                bs == function.blocks@,
                *block == bs[b as int],
                map is Some && file is Some ==> spans_fit(*function),
                b < bs.len(),
                i <= block.statements@.len(),
                ss == block.statements@.map_values(|s: crate::mir::Statement| s.span),
                rows@.len() == prefix.len() + i,
                forall|k: int| 0 <= k < rows@.len() ==> {
                    let s = (prefix + ss)[k];
                    &&& (#[trigger] rows@[k]).address == k
                    &&& rows@[k].span == s
                    &&& located(map, file, s, rows@[k].source)
                },
            decreases block.statements@.len() - i,
        {
            let span = block.statements[i].span;
            proof {
                if map is Some && file is Some {
                    assert(span_fits(function.blocks@[b as int].statements@[i as int].span));
                }
            }
            let source = locate(map, file, span);
            let address = rows.len() as u64;
            rows.push(DwarfLineRow { address, span, source });
            i += 1;
        }
        let source = locate(map, file, function.span);
        let address = rows.len() as u64;
        rows.push(DwarfLineRow { address, span: function.span, source });
        proof {
            assert(row_spans(bs, b + 1, fspan) =~= prefix + ss.push(fspan));
            assert forall|k: int| 0 <= k < rows@.len() implies {
                let s = row_spans(bs, b + 1, fspan)[k];
                &&& (#[trigger] rows@[k]).address == k
                &&& rows@[k].span == s
                &&& located(map, file, s, rows@[k].source)
            } by {
                if k < rows@.len() - 1 {
                    assert((prefix + ss)[k] == row_spans(bs, b + 1, fspan)[k]);
                }
            }
        }
        b += 1;
    }
    rows
}

/// The record of the variable at index `i`: its summary's name, type, flags and live
/// points, and the span of the local its summary names (the summary's last span when
/// there is no such local).
pub open spec fn variable_described(v: DwarfVariable, f: MirFunction, i: int, map: Option<&SourceMap>, file: Option<SourceFileId>) -> bool {
    let s = apply_events(initial_summaries(f.locals@), function_events(f))[i];
    let span = if s.local.0 < f.locals@.len() { f.locals@[s.local.0 as int].span } else { s.last_span };
    &&& v.name@ == s.name
    &&& v.ty@ == s.ty
    &&& v.mutable == s.mutable
    &&& v.temp == s.temp
    &&& v.live_from == s.live_from
    &&& v.live_until == s.live_until
    &&& v.span == span
    &&& located(map, file, span, v.source)
}

/// The debug record of a function: its callable name, a line row per statement and
/// terminator, and a variable record per local.
pub open spec fn function_described(d: DwarfFunction, f: MirFunction, map: Option<&SourceMap>, file: Option<SourceFileId>) -> bool {
    let spans = row_spans(f.blocks@, f.blocks@.len() as int, f.span);
    &&& d.name@ == callable_text(f)
    &&& d.low_pc == 0
    &&& d.high_pc == d.lines@.len()
    &&& d.span == f.span
    &&& located(map, file, f.span, d.source)
    &&& d.lines@.len() == spans.len()
    &&& forall|k: int| 0 <= k < d.lines@.len() ==> {
        &&& (#[trigger] d.lines@[k]).address == k
        &&& d.lines@[k].span == spans[k]
        &&& located(map, file, spans[k], d.lines@[k].source)
    }
    &&& d.variables@.len() == f.locals@.len()
    &&& forall|i: int| 0 <= i < d.variables@.len() ==> #[trigger] variable_described(d.variables@[i], f, i, map, file)
}

pub fn emit_function_dwarf_with_sources(function: &MirFunction, source_map: Option<&SourceMap>, file: Option<SourceFileId>)
    -> (d: DwarfFunction)
    requires
        function_events(*function).len() < usize::MAX,
        source_map is Some && file is Some ==> spans_fit(*function),
    ensures
        function_described(d, *function, source_map, file),
{
    let source = locate(source_map, file, function.span);
    let lines = build_line_rows(function, source_map, file);
    let report = track_variables(function);
    let ghost sv = summary_views(report.summaries@);
    proof {
        super::var_tracking::lemma_apply_events_frame(initial_summaries(function.locals@), function_events(*function));
        assert(sv.len() == function.locals@.len());
    }
    let mut variables: Vec<DwarfVariable> = Vec::new();
    let mut i: usize = 0;
    while i < report.summaries.len()
        invariant
            sv == summary_views(report.summaries@),
            sv == apply_events(initial_summaries(function.locals@), function_events(*function)),
            sv.len() == function.locals@.len(),
            source_map is Some && file is Some ==> spans_fit(*function),
            i <= report.summaries@.len(),
            variables@.len() == i,
            forall|j: int| 0 <= j < i ==> #[trigger] variable_described(variables@[j], *function, j, source_map, file),
        decreases report.summaries@.len() - i,
    {
        let summary = &report.summaries[i];
        assert(sv[i as int] == crate::debug::var_tracking::summary_view(*summary));
        let span = if summary.local.0 < function.locals.len() {
            function.locals[summary.local.0].span
        } else {
            summary.last_span
        };
        proof {
            if source_map is Some && file is Some && summary.local.0 < function.locals@.len() {
                assert(span_fits(function.locals@[summary.local.0 as int].span));
            }
        }
        if !(summary.local.0 < function.locals.len()) {
            proof {
                lemma_last_span_fits(*function, source_map, file, i as int);
            }
        }
        let source = locate(source_map, file, span);
        variables.push(DwarfVariable {
            name: summary.name.clone(),
            ty: summary.ty.clone(),
            mutable: summary.mutable,
            temp: summary.temp,
            live_from: summary.live_from,
            live_until: summary.live_until,
            span,
            source,
        });
        i += 1;
    }
    let high_pc = lines.len() as u64;
    DwarfFunction {
        name: callable_name(function),
        low_pc: 0,
        high_pc,
        span: function.span,
        source,
        lines,
        variables,
    }
}

/// Every event carries the given span.
pub open spec fn all_spans(es: Seq<UseEvent>, sp: Span) -> bool {
    forall|k: int| 0 <= k < es.len() ==> (#[trigger] es[k]).span == sp
}

/// Every event's span can be looked up.
pub open spec fn events_spans_fit(es: Seq<UseEvent>) -> bool {
    forall|k: int| 0 <= k < es.len() ==> span_fits((#[trigger] es[k]).span)
}

proof fn lemma_operands_spans(os: Seq<crate::mir::Operand>, p: ProgramPoint, sp: Span)
    ensures
        all_spans(operands_events(os, p, sp), sp),
    decreases os.len(),
{
    if os.len() > 0 {
        lemma_operands_spans(os.drop_last(), p, sp);
    }
}

proof fn lemma_rvalue_spans(r: crate::mir::Rvalue, p: ProgramPoint, sp: Span)
    ensures
        all_spans(rvalue_events(r, p, sp), sp),
{
    match r {
        crate::mir::Rvalue::AggregateStruct { fields, .. } => {
            lemma_operands_spans(super::var_tracking::field_operands(fields@), p, sp);
        },
        crate::mir::Rvalue::AggregateArray { elements } => {
            lemma_operands_spans(elements@, p, sp);
        },
        _ => {},
    }
}

proof fn lemma_statement_spans(s: crate::mir::Statement, p: ProgramPoint)
    ensures
        all_spans(statement_events(s, p), s.span),
{
    match s.kind {
        crate::mir::StatementKind::Assign(_, value) => {
            lemma_rvalue_spans(value, p, s.span);
        },
        _ => {},
    }
}

proof fn lemma_terminator_spans(t: crate::mir::TerminatorKind, p: ProgramPoint, sp: Span)
    ensures
        all_spans(terminator_events(t, p, sp), sp),
{
    match t {
        crate::mir::TerminatorKind::Call { args, .. } => {
            lemma_operands_spans(args@, p, sp);
        },
        _ => {},
    }
}

proof fn lemma_statements_fit(f: MirFunction, b: int, n: int)
    requires
        spans_fit(f),
        0 <= b < f.blocks@.len(),
        0 <= n <= f.blocks@[b].statements@.len(),
    ensures
        events_spans_fit(statements_events(f.blocks@[b].id, f.blocks@[b].statements@, n)),
    decreases n,
{
    if n > 0 {
        lemma_statements_fit(f, b, n - 1);
        let st = f.blocks@[b].statements@[n - 1];
        let pt = ProgramPoint::Statement { block: f.blocks@[b].id, index: (n - 1) as usize };
        lemma_statement_spans(st, pt);
        assert(span_fits(f.blocks@[b].statements@[n - 1].span));
    }
}

proof fn lemma_blocks_fit(f: MirFunction, n: int)
    requires
        spans_fit(f),
        0 <= n <= f.blocks@.len(),
    ensures
        events_spans_fit(blocks_events(f.blocks@, n, f.span)),
    decreases n,
{
    if n > 0 {
        lemma_blocks_fit(f, n - 1);
        let bb = f.blocks@[n - 1];
        lemma_statements_fit(f, n - 1, bb.statements@.len() as int);
        lemma_terminator_spans(bb.terminator, ProgramPoint::Terminator { block: bb.id }, f.span);
    }
}

/// The last span of a summary is its first one or the span of one of the events.
proof fn lemma_last_spans(s: Seq<SummaryView>, es: Seq<UseEvent>, i: int)
    requires
        0 <= i < s.len(),
        span_fits(s[i].last_span),
        events_spans_fit(es),
    ensures
        span_fits(apply_events(s, es)[i].last_span),
    decreases es.len(),
{
    if es.len() > 0 {
        lemma_last_spans(s, es.drop_last(), i);
        super::var_tracking::lemma_apply_events_frame(s, es.drop_last());
        assert(span_fits(es[es.len() - 1].span));
    }
}

proof fn lemma_last_span_fits(f: MirFunction, map: Option<&SourceMap>, file: Option<SourceFileId>, i: int)
    requires
        map is Some && file is Some ==> spans_fit(f),
        0 <= i < f.locals@.len(),
    ensures
        map is Some && file is Some ==> span_fits(apply_events(initial_summaries(f.locals@), function_events(f))[i].last_span),
{
    if map is Some && file is Some {
        lemma_blocks_fit(f, f.blocks@.len() as int);
        assert(span_fits(f.locals@[i].span));
        lemma_last_spans(initial_summaries(f.locals@), function_events(f), i);
    }
}

pub fn emit_function_dwarf(function: &MirFunction) -> (d: DwarfFunction)
    requires
        function_events(*function).len() < usize::MAX,
    ensures
        function_described(d, *function, None, None),
{
    emit_function_dwarf_with_sources(function, None, None)
}

/// Every function's events fit the counters.
pub open spec fn events_fit(p: MirProgram) -> bool {
    forall|i: int| 0 <= i < p.functions@.len() ==> #[trigger] function_events(p.functions@[i]).len() < usize::MAX
}

/// Whether every function's uses fit the counters, as emitting debug records asks.
pub fn events_fit_check(program: &MirProgram) -> (r: bool)
    ensures
        r == events_fit(*program),
{
    let mut i: usize = 0;
    while i < program.functions.len()
        invariant
            i <= program.functions@.len(),
            forall|k: int| 0 <= k < i ==> #[trigger] function_events(program.functions@[k]).len() < usize::MAX,
        decreases program.functions@.len() - i,
    {
        if !super::var_tracking::events_fit_check(&program.functions[i]) {
            return false;
        }
        i += 1;
    }
    true
}

/// The debug unit `inscribe`, with a record per function in order.
pub fn emit_program_dwarf_with_sources(program: &MirProgram, source_map: Option<&SourceMap>, file: Option<SourceFileId>)
    -> (u: DwarfUnit)
    requires
        events_fit(*program),
        source_map is Some && file is Some ==> forall|i: int| 0 <= i < program.functions@.len() ==> #[trigger] spans_fit(program.functions@[i]),
    ensures
        u.name@ == "inscribe"@,
        u.functions@.len() == program.functions@.len(),
        forall|i: int| 0 <= i < u.functions@.len() ==> #[trigger] function_described(u.functions@[i], program.functions@[i], source_map, file),
{
    let mut functions: Vec<DwarfFunction> = Vec::new();
    let mut i: usize = 0;
    while i < program.functions.len()
        invariant
            events_fit(*program),
            source_map is Some && file is Some ==> forall|k: int| 0 <= k < program.functions@.len() ==> #[trigger] spans_fit(program.functions@[k]),
            i <= program.functions@.len(),
            functions@.len() == i,
            forall|k: int| 0 <= k < i ==> #[trigger] function_described(functions@[k], program.functions@[k], source_map, file),
        decreases program.functions@.len() - i,
    {
        assert(function_events(program.functions@[i as int]).len() < usize::MAX);
        functions.push(emit_function_dwarf_with_sources(&program.functions[i], source_map, file));
        i += 1;
    }
    DwarfUnit { name: owned("inscribe"), functions }
}

pub fn emit_program_dwarf(program: &MirProgram) -> (u: DwarfUnit)
    requires
        events_fit(*program),
    ensures
        u.name@ == "inscribe"@,
        u.functions@.len() == program.functions@.len(),
        forall|i: int| 0 <= i < u.functions@.len() ==> #[trigger] function_described(u.functions@[i], program.functions@[i], None, None),
{
    emit_program_dwarf_with_sources(program, None, None)
}

} // verus!
