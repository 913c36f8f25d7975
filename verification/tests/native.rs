use inscribe::ast::span::{Position, Span};
use inscribe::codegen::{emit_native_assembly, emit_native_executable, Target};
use inscribe::mir::{
    BasicBlockData, BasicBlockId, Constant, ConstantValue, LocalDecl, LocalId, MirFunction, MirProgram, Operand,
    Place, Rvalue, Statement, StatementKind, TerminatorKind,
};
use inscribe::types::{FunctionKey, FunctionSignature, Type};

fn span() -> Span {
    Span::new(Position::new(0, 1, 1), Position::new(4, 1, 5))
}

fn int_constant(value: i64) -> Operand {
    Operand::Constant(Constant { ty: Type::Int, value: ConstantValue::Integer(value.to_string()) })
}

fn local(id: usize, name: &str, ty: Type) -> LocalDecl {
    LocalDecl { id: LocalId(id), name: name.to_string(), ty, mutable: true, temp: id == 0, span: span() }
}

fn assign(local: usize, value: Rvalue) -> Statement {
    Statement { kind: StatementKind::Assign(Place::new(LocalId(local)), value), span: span() }
}

fn function(name: &str, params: Vec<Type>, return_type: Type, locals: Vec<LocalDecl>, blocks: Vec<BasicBlockData>) -> MirFunction {
    MirFunction {
        receiver: None,
        name: name.to_string(),
        signature: FunctionSignature {
            key: FunctionKey { receiver: None, name: name.to_string() },
            params,
            return_type: Box::new(return_type),
        },
        is_declaration: blocks.is_empty(),
        locals,
        blocks,
        entry: BasicBlockId(0),
        return_local: LocalId(0),
        span: span(),
    }
}

fn block(id: usize, statements: Vec<Statement>, terminator: TerminatorKind) -> BasicBlockData {
    BasicBlockData { id: BasicBlockId(id), statements, terminator }
}

fn exit_with(value: i64) -> MirProgram {
    let main = function(
        "main",
        Vec::new(),
        Type::Int,
        vec![local(0, "_return", Type::Int)],
        vec![block(0, vec![assign(0, Rvalue::Use(int_constant(value)))], TerminatorKind::Return)],
    );
    MirProgram { functions: vec![main], span: span() }
}

fn call(callee: &str, args: Vec<Operand>) -> TerminatorKind {
    TerminatorKind::Call {
        callee: Operand::Constant(Constant { ty: Type::Int, value: ConstantValue::Function(callee.to_string()) }),
        args,
        destination: Some(Place::new(LocalId(0))),
        target: BasicBlockId(1),
    }
}

/// A function of `n` int parameters returning their sum, and `main` calling it.
fn summing(name: &str, n: usize) -> MirProgram {
    let mut locals = vec![local(0, "_return", Type::Int)];
    for index in 0..n {
        locals.push(local(index + 1, &format!("p{index}"), Type::Int));
    }
    let mut statements = vec![assign(0, Rvalue::Use(Operand::Copy(Place::new(LocalId(1)))))];
    for index in 1..n {
        statements.push(assign(
            0,
            Rvalue::BinaryOp {
                op: "Add".to_string(),
                left: Operand::Copy(Place::new(LocalId(0))),
                right: Operand::Copy(Place::new(LocalId(index + 1))),
            },
        ));
    }
    let callee = function(name, (0..n).map(|_| Type::Int).collect(), Type::Int, locals, vec![block(0, statements, TerminatorKind::Return)]);
    let args = (0..n).map(|index| int_constant(index as i64 + 1)).collect();
    let main = function(
        "main",
        Vec::new(),
        Type::Int,
        vec![local(0, "_return", Type::Int)],
        vec![block(0, Vec::new(), call(name, args)), block(1, Vec::new(), TerminatorKind::Return)],
    );
    MirProgram { functions: vec![callee, main], span: span() }
}

#[test]
fn emits_linux_x64_assembly() {
    // let base = 40; if true { base + 2 } else { 0 }
    let main = function(
        "main",
        Vec::new(),
        Type::Int,
        vec![local(0, "_return", Type::Int), local(1, "base", Type::Int)],
        vec![
            block(
                0,
                vec![assign(1, Rvalue::Use(int_constant(40)))],
                TerminatorKind::Branch {
                    condition: Operand::Constant(Constant { ty: Type::Bool, value: ConstantValue::Bool(true) }),
                    then_bb: BasicBlockId(1),
                    else_bb: BasicBlockId(2),
                },
            ),
            block(
                1,
                vec![assign(
                    0,
                    Rvalue::BinaryOp {
                        op: "Add".to_string(),
                        left: Operand::Copy(Place::new(LocalId(1))),
                        right: int_constant(2),
                    },
                )],
                TerminatorKind::Goto { target: BasicBlockId(3) },
            ),
            block(2, vec![assign(0, Rvalue::Use(int_constant(0)))], TerminatorKind::Goto { target: BasicBlockId(3) }),
            block(3, Vec::new(), TerminatorKind::Return),
        ],
    );
    let mir = MirProgram { functions: vec![main], span: span() };
    let assembly = emit_native_assembly(&mir, Target::linux_x86_64()).expect("assembly emission");

    assert!(assembly.contains(".intel_syntax noprefix"));
    assert!(assembly.contains("_start:"));
    assert!(assembly.contains("syscall"));
    assert!(assembly.contains(".Lbb"));
}

#[test]
fn emits_direct_function_calls() {
    let mir = summing("add", 2);
    let assembly = emit_native_assembly(&mir, Target::linux_x86_64()).expect("assembly emission");

    assert!(assembly.contains("call __ml_fn_add"));
    assert!(assembly.contains("__ml_fn_main"));
    assert!(assembly.contains("__ml_fn_add"));
}

#[test]
fn emits_many_argument_calls() {
    let mir = summing("sum8", 8);
    let assembly = emit_native_assembly(&mir, Target::linux_x86_64()).expect("assembly emission");

    assert!(assembly.contains("call __ml_fn_sum8"));
    assert!(assembly.contains("r8"));
    assert!(assembly.contains("r9"));
    assert!(assembly.contains("qword ptr [rsp + 0]"));
    assert!(assembly.contains("qword ptr [rsp + 8]"));
}

#[test]
fn emits_elf_through_the_lowering() {
    let bytes = emit_native_executable(&exit_with(7), Target::linux_x86_64()).expect("elf emission should work");
    assert_eq!(&bytes[..4], b"\x7FELF");
    assert_eq!(bytes[4], 2);
    assert_eq!(bytes[5], 1);
    assert_eq!(u16::from_le_bytes([bytes[18], bytes[19]]), 62);
}

#[test]
fn emits_pe_with_helper_call() {
    let bytes = emit_native_executable(&summing("add", 2), Target::windows_x86_64()).expect("pe emission should work");
    assert_eq!(&bytes[..2], b"MZ");
}

#[test]
fn rejects_unknown_declared_runtime_functions() {
    // A declaration still gets the entry block its lowering always opens.
    let mut host = function(
        "host_magic",
        vec![Type::Int],
        Type::Unit,
        vec![local(0, "_return", Type::Unit), local(1, "value", Type::Int)],
        vec![block(0, Vec::new(), TerminatorKind::Return)],
    );
    host.is_declaration = true;
    let main = function(
        "main",
        Vec::new(),
        Type::Int,
        vec![local(0, "_return", Type::Int)],
        vec![
            block(
                0,
                Vec::new(),
                TerminatorKind::Call {
                    callee: Operand::Constant(Constant {
                        ty: Type::Unit,
                        value: ConstantValue::Function("host_magic".to_string()),
                    }),
                    args: vec![int_constant(7)],
                    destination: None,
                    target: BasicBlockId(1),
                },
            ),
            block(1, vec![assign(0, Rvalue::Use(int_constant(0)))], TerminatorKind::Return),
        ],
    );
    let mir = MirProgram { functions: vec![host, main], span: span() };
    let error = emit_native_executable(&mir, Target::linux_x86_64())
        .expect_err("declared runtime calls should not compile as no-op stubs");
    assert!(error.message.contains("does not yet implement declared runtime function `host_magic`"));
}

#[test]
fn programs_without_main_are_refused() {
    let helper = function(
        "helper",
        Vec::new(),
        Type::Int,
        vec![local(0, "_return", Type::Int)],
        vec![block(0, Vec::new(), TerminatorKind::Return)],
    );
    let mir = MirProgram { functions: vec![helper], span: span() };
    let error = emit_native_assembly(&mir, Target::linux_x86_64()).expect_err("main is required");
    assert_eq!(error.message, "native codegen requires a top-level `main` function");
}

#[test]
fn malformed_functions_are_refused() {
    let mut mir = exit_with(3);
    mir.functions[0].blocks[0].terminator = TerminatorKind::Goto { target: BasicBlockId(4) };
    let error = emit_native_executable(&mir, Target::linux_x86_64()).expect_err("a jump to a missing block is refused");
    assert_eq!(error.message, "MIR function `main` refers to blocks or locals it lacks");
    assert!(emit_native_assembly(&mir, Target::linux_x86_64()).is_err());
}
