use inscribe::ast::span::{Position, Span};
use inscribe::comptime::{qualified_function_name, reflect_program};
use inscribe::mir::{
    BasicBlockData, BasicBlockId, LocalDecl, LocalId, MirFunction, MirProgram, Statement, StatementKind,
    TerminatorKind,
};
use inscribe::types::{FunctionKey, FunctionSignature, Type};

fn span() -> Span {
    Span::new(Position::new(0, 1, 1), Position::new(4, 1, 5))
}

fn local(id: usize, name: &str, ty: Type) -> LocalDecl {
    LocalDecl { id: LocalId(id), name: name.to_string(), ty, mutable: false, temp: id == 0, span: span() }
}

fn function(receiver: Option<&str>, name: &str, params: Vec<Type>) -> MirFunction {
    let mut locals = vec![local(0, "_return", Type::Int)];
    for (index, ty) in params.iter().enumerate() {
        locals.push(local(index + 1, "self", ty.duplicate()));
    }
    MirFunction {
        receiver: receiver.map(|r| r.to_string()),
        name: name.to_string(),
        signature: FunctionSignature {
            key: FunctionKey { receiver: receiver.map(|r| r.to_string()), name: name.to_string() },
            params,
            return_type: Box::new(Type::Int),
        },
        is_declaration: false,
        locals,
        blocks: vec![BasicBlockData {
            id: BasicBlockId(0),
            statements: vec![Statement { kind: StatementKind::StorageLive(LocalId(0)), span: span() }],
            terminator: TerminatorKind::Return,
        }],
        entry: BasicBlockId(0),
        return_local: LocalId(0),
        span: span(),
    }
}

// struct User { id: int }  fn User.greet(self) -> int { 1 }  fn main() -> int { 0 }
fn user_program() -> MirProgram {
    MirProgram {
        functions: vec![
            function(Some("User"), "greet", vec![Type::Struct("User".to_string())]),
            function(None, "main", Vec::new()),
        ],
        span: span(),
    }
}

#[test]
fn reflects_function_metadata() {
    let mir = user_program();
    let reflection = reflect_program(&mir);
    let info = reflection.describe_function("User.greet").expect("method should exist");

    assert_eq!(info.qualified_name, "User.greet");
    assert_eq!(info.param_count, 1);
    assert_eq!(info.return_type, "int");
    assert!(reflection.callable_names().iter().any(|name| name == "User.greet"));
}

#[test]
fn reflection_finds_functions_and_locals() {
    let mir = user_program();
    let reflection = reflect_program(&mir);
    assert_eq!(qualified_function_name(&mir.functions[0]), "User.greet");
    assert_eq!(qualified_function_name(&mir.functions[1]), "main");
    assert!(reflection.function("greet").is_none());
    assert_eq!(reflection.function("main").map(|f| f.name.as_str()), Some("main"));
    let locals = reflection.locals("User.greet").expect("method should exist");
    assert_eq!(locals.len(), 2);
    assert_eq!(locals[1].ty, "User");
    assert_eq!(locals[0].name, "_return");
    assert!(reflection.describe_function("missing").is_none());
    assert_eq!(reflection.functions().len(), 2);
}
