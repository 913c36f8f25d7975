use inscribe::ast::span::{Position, Span};
use inscribe::codegen::routines::{
    block_label, emit_entry_wrapper, emit_runtime_function, function_label,
    is_supported_runtime_declaration,
};
use inscribe::codegen::runtime::LoweringState;
use inscribe::codegen::x86::Instruction;
use inscribe::codegen::Target;
use inscribe::debug::var_tracking::track_variables;
use inscribe::debug::{ProgramPoint, VariableUseKind};
use inscribe::mir::optimize::{mark_reachable, remove_unreachable_blocks, successor_blocks};
use inscribe::mir::{find_nondeterministic_calls, MirProgram};
use inscribe::mir::nodes::callable_name;
use inscribe::mir::{
    check_mutable_assignments, BasicBlockData, BasicBlockId, Constant, ConstantValue, LocalDecl,
    LocalId, MatchTarget, MirFunction, Operand, Place, Rvalue, Statement, StatementKind,
    TerminatorKind,
};
use inscribe::types::{FunctionKey, FunctionSignature, Type};

fn span() -> Span {
    Span::new(Position::new(0, 1, 1), Position::new(12, 1, 13))
}

fn signature(name: &str, params: Vec<Type>, return_type: Type) -> FunctionSignature {
    FunctionSignature {
        key: FunctionKey {
            receiver: None,
            name: name.to_string(),
        },
        params,
        return_type: Box::new(return_type),
    }
}

fn local(id: usize, name: &str, mutable: bool, temp: bool) -> LocalDecl {
    LocalDecl {
        id: LocalId(id),
        name: name.to_string(),
        ty: Type::Int,
        mutable,
        temp,
        span: span(),
    }
}

fn function(name: &str, receiver: Option<&str>, blocks: Vec<BasicBlockData>, return_type: Type) -> MirFunction {
    MirFunction {
        receiver: receiver.map(|r| r.to_string()),
        name: name.to_string(),
        signature: signature(name, Vec::new(), return_type),
        is_declaration: blocks.is_empty(),
        locals: vec![local(0, "_return", true, true)],
        blocks,
        entry: BasicBlockId(0),
        return_local: LocalId(0),
        span: span(),
    }
}

fn block(id: usize, terminator: TerminatorKind) -> BasicBlockData {
    BasicBlockData {
        id: BasicBlockId(id),
        statements: Vec::new(),
        terminator,
    }
}

fn sample_function() -> MirFunction {
    let span = span();
    MirFunction {
        receiver: None,
        name: "main".to_string(),
        signature: signature("main", vec![Type::Int], Type::Int),
        is_declaration: false,
        locals: vec![
            local(0, "_return", true, true),
            local(1, "value", false, false),
            local(2, "sum", true, false),
        ],
        blocks: vec![BasicBlockData {
            id: BasicBlockId(0),
            statements: vec![
                Statement {
                    kind: StatementKind::StorageLive(LocalId(2)),
                    span,
                },
                Statement {
                    kind: StatementKind::Assign(
                        Place::new(LocalId(2)),
                        Rvalue::Use(Operand::Copy(Place::new(LocalId(1)))),
                    ),
                    span,
                },
                Statement {
                    kind: StatementKind::Assign(
                        Place::new(LocalId(0)),
                        Rvalue::BinaryOp {
                            op: "Add".to_string(),
                            left: Operand::Copy(Place::new(LocalId(2))),
                            right: Operand::Constant(Constant {
                                ty: Type::Int,
                                value: ConstantValue::Integer("1".to_string()),
                            }),
                        },
                    ),
                    span,
                },
                Statement {
                    kind: StatementKind::StorageDead(LocalId(2)),
                    span,
                },
            ],
            terminator: TerminatorKind::Return,
        }],
        entry: BasicBlockId(0),
        return_local: LocalId(0),
        span,
    }
}

fn rendered(instructions: &[Instruction]) -> Vec<String> {
    instructions.iter().map(|instruction| instruction.render()).collect()
}

#[test]
fn tracks_reads_writes_and_liveness() {
    let report = track_variables(&sample_function());
    let sum = report.summary(LocalId(2)).expect("sum local should exist");

    assert_eq!(sum.reads, 1);
    assert_eq!(sum.writes, 1);
    assert_eq!(
        sum.live_from,
        Some(ProgramPoint::Statement {
            block: BasicBlockId(0),
            index: 0
        })
    );
    assert_eq!(
        sum.live_until,
        Some(ProgramPoint::Statement {
            block: BasicBlockId(0),
            index: 3
        })
    );
    assert!(report
        .uses
        .iter()
        .any(|usage| usage.kind == VariableUseKind::Read && usage.local == LocalId(2)));
}

#[test]
fn tracking_records_every_use_in_order() {
    let report = track_variables(&sample_function());
    let kinds: Vec<(usize, VariableUseKind)> = report
        .uses
        .iter()
        .map(|usage| (usage.local.0, usage.kind))
        .collect();
    assert_eq!(
        kinds,
        vec![
            (2, VariableUseKind::StorageLive),
            (2, VariableUseKind::Write),
            (1, VariableUseKind::Read),
            (0, VariableUseKind::Write),
            (2, VariableUseKind::Read),
            (2, VariableUseKind::StorageDead),
        ]
    );
    assert_eq!(report.summaries[1].ty, "int");
    assert_eq!(report.summaries[1].reads, 1);
    assert_eq!(report.summaries[0].writes, 1);
    assert_eq!(report.user_variables().len(), 2);
}

#[test]
fn immutable_assignments_are_reported() {
    let issues = check_mutable_assignments(&sample_function());
    assert!(issues.is_empty());

    let mut function = sample_function();
    function.locals[2].mutable = false;
    let issues = check_mutable_assignments(&function);
    assert_eq!(issues.len(), 1);
    assert_eq!(issues[0].local, "sum");
    assert_eq!(issues[0].message, "assignment to immutable local `sum`");
}

#[test]
fn unreachable_blocks_are_dropped_and_targets_follow() {
    let mut f = function(
        "main",
        None,
        vec![
            block(0, TerminatorKind::Goto { target: BasicBlockId(2) }),
            block(1, TerminatorKind::Goto { target: BasicBlockId(0) }),
            block(
                2,
                TerminatorKind::Match {
                    discriminant: Operand::Copy(Place::new(LocalId(0))),
                    arms: vec![MatchTarget {
                        pattern: "1".to_string(),
                        target: BasicBlockId(3),
                    }],
                    otherwise: BasicBlockId(3),
                },
            ),
            block(3, TerminatorKind::Return),
        ],
        Type::Unit,
    );
    assert_eq!(mark_reachable(f.entry, &f.blocks), vec![true, false, true, true]);
    remove_unreachable_blocks(&mut f);
    assert_eq!(f.blocks.len(), 3);
    assert_eq!(f.entry, BasicBlockId(0));
    let ids: Vec<usize> = f.blocks.iter().map(|b| b.id.0).collect();
    assert_eq!(ids, vec![0, 1, 2]);
    assert_eq!(successor_blocks(&f.blocks[0].terminator), vec![BasicBlockId(1)]);
    assert_eq!(
        successor_blocks(&f.blocks[1].terminator),
        vec![BasicBlockId(2), BasicBlockId(2)]
    );
    assert_eq!(mark_reachable(f.entry, &f.blocks), vec![true, true, true]);
}

#[test]
fn fully_reachable_functions_are_left_alone() {
    let mut f = function(
        "main",
        None,
        vec![
            block(7, TerminatorKind::Goto { target: BasicBlockId(1) }),
            block(9, TerminatorKind::Return),
        ],
        Type::Unit,
    );
    remove_unreachable_blocks(&mut f);
    assert_eq!(f.blocks[0].id, BasicBlockId(7));
    assert_eq!(f.blocks[1].id, BasicBlockId(9));
}

#[test]
fn types_are_written_as_in_source() {
    assert_eq!(Type::Array(Box::new(Type::Int), 3).display_name(), "[int; 3]");
    assert_eq!(
        Type::Result(Box::new(Type::String), Box::new(Type::Error)).display_name(),
        "Result<string, Error>"
    );
    assert_eq!(Type::Struct("User".to_string()).display_name(), "User");
    let sig = signature("f", vec![Type::Int, Type::Bool], Type::Unit);
    assert_eq!(sig.display_name(), "fn(int, bool) -> ()");
    assert_eq!(Type::Function(sig.duplicate()).display_name(), "fn(int, bool) -> ()");
    assert_eq!(
        Type::Range(Box::new(Type::Byte)).duplicate(),
        Type::Range(Box::new(Type::Byte))
    );
}

#[test]
fn function_labels_are_sanitized() {
    let method = function("greet", Some("User"), Vec::new(), Type::String);
    assert_eq!(callable_name(&method), "User.greet");
    assert_eq!(function_label(&method), "__ml_fn_User_greet");
    assert_eq!(block_label(&method, BasicBlockId(4)), "__ml_fn_User_greet.Lbb4");
    assert!(!is_supported_runtime_declaration(&method));
    assert!(is_supported_runtime_declaration(&function("read_int", None, Vec::new(), Type::Int)));
}

#[test]
fn runtime_routines_start_at_their_label() {
    let mut state = LoweringState::new();
    let mut instructions = Vec::new();
    let print = function("print_int", None, Vec::new(), Type::Unit);
    emit_runtime_function(&print, Target::linux_x86_64(), &mut state, &mut instructions)
        .expect("print_int is provided");
    let text = rendered(&instructions);
    assert_eq!(text[0], "__ml_fn_print_int:");
    assert_eq!(text[1], "sub rsp, 128");
    assert!(text.contains(&"syscall".to_string()));
    assert_eq!(text.last().unwrap(), "ret");
    assert_eq!(text.len(), 36 + 5 + 3);

    let mut windows = Vec::new();
    let mut windows_state = LoweringState::new();
    emit_runtime_function(&print, Target::windows_x86_64(), &mut windows_state, &mut windows)
        .expect("print_int is provided");
    assert!(windows_state.uses_windows_runtime_imports());
    assert!(rendered(&windows).contains(&"call qword ptr [rip + __ml_iat_WriteFile]".to_string()));

    let mut read = Vec::new();
    emit_runtime_function(
        &function("read_int", None, Vec::new(), Type::Int),
        Target::linux_x86_64(),
        &mut state,
        &mut read,
    )
    .expect("read_int is provided");
    let text = rendered(&read);
    assert_eq!(text[0], "__ml_fn_read_int:");
    assert_eq!(text[6], "__ml_rt_read_int_read_6:");

    let mut none = Vec::new();
    let error = emit_runtime_function(
        &function("host_magic", None, Vec::new(), Type::Int),
        Target::linux_x86_64(),
        &mut state,
        &mut none,
    )
    .expect_err("unknown runtime functions are refused");
    assert_eq!(
        error.message,
        "native codegen does not yet implement declared runtime function `host_magic`"
    );
    assert!(none.is_empty());
}

#[test]
fn entry_wrapper_exits_with_mains_result() {
    let mut state = LoweringState::new();
    let mut instructions = Vec::new();
    let main = function("main", None, Vec::new(), Type::Int);
    emit_entry_wrapper(&main, Target::linux_x86_64(), &mut state, &mut instructions);
    assert_eq!(
        rendered(&instructions),
        vec![
            "_start:",
            "call __ml_fn_main",
            "mov rdi, rax",
            "mov rax, 60",
            "syscall",
            "ud2",
        ]
    );

    let mut windows = Vec::new();
    let unit_main = function("main", None, Vec::new(), Type::Unit);
    emit_entry_wrapper(&unit_main, Target::windows_x86_64(), &mut state, &mut windows);
    assert_eq!(
        rendered(&windows),
        vec![
            "mainCRTStartup:",
            "sub rsp, 40",
            "call __ml_fn_main",
            "mov rax, 0",
            "add rsp, 40",
            "ret",
        ]
    );
}

fn call_block(id: usize, callee: &str, target: usize) -> BasicBlockData {
    block(
        id,
        TerminatorKind::Call {
            callee: Operand::Constant(Constant {
                ty: Type::Unit,
                value: ConstantValue::Function(callee.to_string()),
            }),
            args: vec![Operand::Constant(Constant {
                ty: Type::Int,
                value: ConstantValue::Integer("4".to_string()),
            })],
            destination: None,
            target: BasicBlockId(target),
        },
    )
}

fn program(functions: Vec<MirFunction>) -> MirProgram {
    MirProgram {
        functions,
        span: span(),
    }
}

#[test]
fn flags_calls_with_nondeterministic_capabilities() {
    let mir = program(vec![
        function("host_magic", None, Vec::new(), Type::Unit),
        function(
            "helper",
            None,
            vec![call_block(0, "host_magic", 1), block(1, TerminatorKind::Return)],
            Type::Int,
        ),
        function(
            "main",
            None,
            vec![call_block(0, "helper", 1), block(1, TerminatorKind::Return)],
            Type::Int,
        ),
    ]);

    let issues = find_nondeterministic_calls(&mir);
    assert_eq!(issues.len(), 2);
    assert!(issues.iter().any(|issue| issue.function == "helper" && issue.callee == "host_magic"));
    assert!(issues.iter().any(|issue| issue.function == "main" && issue.callee == "helper"));
}

#[test]
fn keeps_deterministic_runtime_capabilities_allowed() {
    let mir = program(vec![
        function("print_int", None, Vec::new(), Type::Unit),
        function(
            "main",
            None,
            vec![call_block(0, "print_int", 1), block(1, TerminatorKind::Return)],
            Type::Int,
        ),
    ]);

    let issues = find_nondeterministic_calls(&mir);
    assert!(issues.is_empty());
}

#[test]
fn nondeterminism_spreads_through_call_chains() {
    let mir = program(vec![
        function(
            "a",
            None,
            vec![call_block(0, "b", 1), call_block(1, "print_string", 2), block(2, TerminatorKind::Return)],
            Type::Unit,
        ),
        function("b", None, vec![call_block(0, "c", 1), block(1, TerminatorKind::Return)], Type::Unit),
        function("c", None, vec![call_block(0, "read_int", 1), block(1, TerminatorKind::Return)], Type::Unit),
        function("d", None, vec![call_block(0, "a", 1), block(1, TerminatorKind::Return)], Type::Unit),
    ]);
    let issues: Vec<(String, String)> = find_nondeterministic_calls(&mir)
        .into_iter()
        .map(|issue| (issue.function, issue.callee))
        .collect();
    assert_eq!(
        issues,
        vec![
            ("a".to_string(), "b".to_string()),
            ("b".to_string(), "c".to_string()),
            ("c".to_string(), "read_int".to_string()),
            ("d".to_string(), "a".to_string()),
        ]
    );
}
