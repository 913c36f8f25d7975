use inscribe::ast::span::{Position, Span};
use inscribe::debug::source_map::compute_line_starts;
use inscribe::debug::var_tracking::record_use;
use inscribe::debug::{
    ProgramPoint, SourceFileId, SourceMap, VariableReport, VariableSummary, VariableUseKind,
};
use inscribe::debug::build_program_debug_info;
use inscribe::debug::dwarf::{emit_function_dwarf, emit_program_dwarf_with_sources};
use inscribe::mir::{
    BasicBlockData, BasicBlockId, LocalDecl, LocalId, MirFunction, MirProgram, Statement, StatementKind,
    TerminatorKind,
};
use inscribe::types::{FunctionKey, FunctionSignature, Type};

#[test]
fn resolves_offsets_and_snippets() {
    let mut map = SourceMap::new();
    let file = map.add_file("main.ins", "let answer = 42\nanswer\n");
    let span = Span::new(Position::new(4, 1, 5), Position::new(10, 1, 11));
    let range = map.resolve_span(file, span).expect("span should resolve");

    assert_eq!(range.start.line, 1);
    assert_eq!(range.start.column, 5);
    assert_eq!(range.end.column, 11);
    assert_eq!(map.snippet(file, span), Some("answer"));
}

#[test]
fn line_starts_follow_newlines() {
    assert_eq!(compute_line_starts("a\nbc\n\nd"), vec![0, 2, 5, 6]);
    assert_eq!(compute_line_starts(""), vec![0]);
}

#[test]
fn offsets_resolve_to_lines_and_columns() {
    let mut map = SourceMap::new();
    let first = map.add_file("a.ins", "x\n");
    let second = map.add_file("b.ins", "let answer = 42\nanswer\n");
    assert_eq!(first, SourceFileId(0));
    assert_eq!(second, SourceFileId(1));
    assert_eq!(map.files().len(), 2);
    assert_eq!(map.file(second).expect("file").name, "b.ins");

    let location = map.lookup_offset(second, 18).expect("offset should resolve");
    assert_eq!((location.line, location.column), (2, 3));
    let start = map.lookup_offset(second, 16).expect("line start");
    assert_eq!((start.line, start.column), (2, 1));
    assert!(map.lookup_offset(SourceFileId(9), 0).is_none());

    let fallback = map
        .lookup_position(SourceFileId(9), Position::new(3, 7, 8))
        .expect("unknown files keep the position");
    assert_eq!((fallback.line, fallback.column), (7, 8));
}

#[test]
fn snippets_need_ordered_in_range_offsets() {
    let mut map = SourceMap::new();
    let file = map.add_file("main.ins", "abc");
    let backwards = Span::new(Position::new(2, 1, 3), Position::new(1, 1, 2));
    assert_eq!(map.snippet(file, backwards), None);
    let past_end = Span::new(Position::new(0, 1, 1), Position::new(4, 1, 5));
    assert_eq!(map.snippet(file, past_end), None);
    let all = Span::new(Position::new(0, 1, 1), Position::new(3, 1, 4));
    assert_eq!(map.snippet(file, all), Some("abc"));
    assert_eq!(map.snippet(SourceFileId(3), all), None);

    let mut wide = SourceMap::new();
    let id = wide.add_file("w.ins", "é!");
    let inside = Span::new(Position::new(1, 1, 1), Position::new(3, 1, 3));
    assert_eq!(wide.snippet(id, inside), None);
    let after = Span::new(Position::new(2, 1, 2), Position::new(3, 1, 3));
    assert_eq!(wide.snippet(id, after), Some("!"));
}

fn summary(local: usize, name: &str, temp: bool) -> VariableSummary {
    VariableSummary {
        local: LocalId(local),
        name: name.to_string(),
        ty: "int".to_string(),
        mutable: false,
        temp,
        reads: 0,
        writes: 0,
        live_from: None,
        live_until: None,
        last_span: Span::new(Position::new(0, 1, 1), Position::new(0, 1, 1)),
    }
}

#[test]
fn uses_update_summaries() {
    let mut uses = Vec::new();
    let mut summaries = vec![summary(0, "sum", false), summary(1, "_tmp", true)];
    let at = |index: usize| ProgramPoint::Statement {
        block: BasicBlockId(0),
        index,
    };
    let span = Span::new(Position::new(4, 1, 5), Position::new(7, 1, 8));
    record_use(&mut uses, &mut summaries, LocalId(0), VariableUseKind::StorageLive, at(0), span, Vec::new());
    record_use(&mut uses, &mut summaries, LocalId(0), VariableUseKind::StorageLive, at(1), span, Vec::new());
    record_use(&mut uses, &mut summaries, LocalId(0), VariableUseKind::Write, at(2), span, Vec::new());
    record_use(&mut uses, &mut summaries, LocalId(0), VariableUseKind::Read, at(3), span, vec!["x".to_string()]);
    record_use(&mut uses, &mut summaries, LocalId(0), VariableUseKind::StorageDead, at(4), span, Vec::new());
    record_use(&mut uses, &mut summaries, LocalId(7), VariableUseKind::Read, at(5), span, Vec::new());

    assert_eq!(uses.len(), 5);
    assert_eq!(uses[3].projection, vec!["x".to_string()]);
    assert_eq!(uses[3].name, "sum");
    let sum = &summaries[0];
    assert_eq!(sum.reads, 1);
    assert_eq!(sum.writes, 1);
    assert_eq!(sum.live_from, Some(at(0)));
    assert_eq!(sum.live_until, Some(at(4)));
    assert_eq!(sum.last_span, span);

    let report = VariableReport { uses, summaries };
    let named = report.user_variables();
    assert_eq!(named.len(), 1);
    assert_eq!(named[0].name, "sum");
    assert_eq!(report.summary(LocalId(1)).expect("temp summary").name, "_tmp");
    assert!(report.summary(LocalId(2)).is_none());
}

fn debug_function(span: Span, return_type: Type, locals: Vec<LocalDecl>, statements: Vec<Statement>) -> MirFunction {
    MirFunction {
        receiver: None,
        name: "main".to_string(),
        signature: FunctionSignature {
            key: FunctionKey { receiver: None, name: "main".to_string() },
            params: Vec::new(),
            return_type: Box::new(return_type),
        },
        is_declaration: false,
        locals,
        blocks: vec![BasicBlockData { id: BasicBlockId(0), statements, terminator: TerminatorKind::Return }],
        entry: BasicBlockId(0),
        return_local: LocalId(0),
        span,
    }
}

fn debug_local(id: usize, name: &str, ty: Type, span: Span) -> LocalDecl {
    LocalDecl { id: LocalId(id), name: name.to_string(), ty, mutable: true, temp: id == 0, span }
}

fn dwarf_sample_program() -> (MirProgram, SourceMap, SourceFileId) {
    let span = Span::new(Position::new(0, 1, 1), Position::new(14, 2, 4));
    let function = debug_function(
        span,
        Type::Int,
        vec![debug_local(0, "_return", Type::Int, span), debug_local(1, "value", Type::Int, span)],
        vec![
            Statement { kind: StatementKind::StorageLive(LocalId(1)), span },
            Statement { kind: StatementKind::StorageDead(LocalId(1)), span },
        ],
    );
    let program = MirProgram { functions: vec![function], span };
    let mut source_map = SourceMap::new();
    let file = source_map.add_file("main.ins", "fn main() {\n  1\n}\n");
    (program, source_map, file)
}

#[test]
fn emits_function_and_variable_records() {
    let (program, source_map, file) = dwarf_sample_program();
    let unit = emit_program_dwarf_with_sources(&program, Some(&source_map), Some(file));

    assert_eq!(unit.name, "inscribe");
    assert_eq!(unit.functions.len(), 1);
    assert_eq!(unit.functions[0].name, "main");
    assert_eq!(unit.functions[0].variables.len(), 2);
    assert!(unit.functions[0].source.is_some());
    assert!(unit.functions[0].lines.len() >= 2);
}

#[test]
fn records_without_sources_have_no_location() {
    let (program, _, _) = dwarf_sample_program();
    let record = emit_function_dwarf(&program.functions[0]);
    assert_eq!(record.name, "main");
    assert!(record.source.is_none());
    assert_eq!(record.variables[1].name, "value");
}

#[test]
fn builds_program_debug_summary() {
    let span = Span::new(Position::new(0, 1, 1), Position::new(8, 1, 9));
    let program = MirProgram {
        functions: vec![debug_function(span, Type::Unit, vec![debug_local(0, "_return", Type::Unit, span)], Vec::new())],
        span,
    };

    let info = build_program_debug_info(&program);

    assert_eq!(info.functions.len(), 1);
    assert_eq!(info.functions[0].name, "main");
    assert_eq!(info.dwarf.functions[0].name, "main");
}

#[test]
fn the_last_offset_resolves_past_a_line_break() {
    let mut map = SourceMap::new();
    let file = map.add_file("main.ins", "let answer = 42\nanswer\n");
    let location = map.lookup_offset(file, 16).expect("known file");
    assert_eq!((location.line, location.column), (2, 1));
    let last = map.lookup_offset(file, usize::MAX).expect("known file");
    assert_eq!(last.line, 3);
    assert_eq!(last.column, usize::MAX - 23 + 1);
    assert!(map.lookup_offset(SourceFileId(7), usize::MAX).is_none());
}

#[test]
fn ordinary_programs_fit_the_use_counters() {
    let (program, _, _) = dwarf_sample_program();
    assert!(inscribe::debug::dwarf::events_fit_check(&program));
}
