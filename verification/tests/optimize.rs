use inscribe::ast::span::{Position, Span};
use inscribe::mir::optimize::is_well_formed;
use inscribe::mir::{
    evaluate_constant_rvalue, fold_block_constants, fold_function_constants, optimize_function,
    optimize_program, BasicBlockData, BasicBlockId, Constant, ConstantValue, LocalDecl, LocalId,
    MirFunction, MirProgram, Operand, Place, Rvalue, Statement, StatementKind, TerminatorKind,
};
use inscribe::types::{FunctionKey, FunctionSignature, Type};

fn span() -> Span {
    Span::new(Position::new(0, 1, 1), Position::new(8, 1, 9))
}

fn int_op(text: &str) -> Operand {
    Operand::Constant(Constant { ty: Type::Int, value: ConstantValue::Integer(text.to_string()) })
}

fn boolean(value: bool) -> Operand {
    Operand::Constant(Constant { ty: Type::Bool, value: ConstantValue::Bool(value) })
}

fn text(value: &str) -> Operand {
    Operand::Constant(Constant { ty: Type::String, value: ConstantValue::String(value.to_string()) })
}

fn copy(local: usize) -> Operand {
    Operand::Copy(Place::new(LocalId(local)))
}

fn binary(op: &str, left: Operand, right: Operand) -> Rvalue {
    Rvalue::BinaryOp { op: op.to_string(), left, right }
}

fn assign(local: usize, value: Rvalue) -> Statement {
    Statement { kind: StatementKind::Assign(Place::new(LocalId(local)), value), span: span() }
}

fn live(local: usize) -> Statement {
    Statement { kind: StatementKind::StorageLive(LocalId(local)), span: span() }
}

fn block(id: usize, statements: Vec<Statement>, terminator: TerminatorKind) -> BasicBlockData {
    BasicBlockData { id: BasicBlockId(id), statements, terminator }
}

fn goto(target: usize) -> TerminatorKind {
    TerminatorKind::Goto { target: BasicBlockId(target) }
}

fn local(id: usize, name: &str, ty: Type) -> LocalDecl {
    LocalDecl { id: LocalId(id), name: name.to_string(), ty, mutable: true, temp: false, span: span() }
}

fn function(name: &str, params: Vec<Type>, locals: Vec<LocalDecl>, blocks: Vec<BasicBlockData>) -> MirFunction {
    MirFunction {
        receiver: None,
        name: name.to_string(),
        signature: FunctionSignature {
            key: FunctionKey { receiver: None, name: name.to_string() },
            params,
            return_type: Box::new(Type::Int),
        },
        is_declaration: false,
        locals,
        blocks,
        entry: BasicBlockId(0),
        return_local: LocalId(0),
        span: span(),
    }
}

fn integer_of(rvalue: &Rvalue) -> Option<String> {
    match rvalue {
        Rvalue::Use(Operand::Constant(Constant { value: ConstantValue::Integer(value), .. })) => Some(value.clone()),
        _ => None,
    }
}

fn evaluated(rvalue: Rvalue) -> Option<ConstantValue> {
    evaluate_constant_rvalue(&rvalue).map(|constant| constant.value)
}

#[test]
fn folds_constants_across_cfg_edges() {
    // let value = 4; if true { let doubled = value + value; doubled } else { 0 }
    let mut f = function(
        "main",
        Vec::new(),
        vec![
            local(0, "_return", Type::Int),
            local(1, "value", Type::Int),
            local(2, "condition", Type::Bool),
            local(3, "doubled", Type::Int),
            local(4, "sum", Type::Int),
        ],
        vec![
            block(
                0,
                vec![live(0), live(1), assign(1, Rvalue::Use(int_op("4"))), live(2), assign(2, Rvalue::Use(boolean(true)))],
                goto(1),
            ),
            block(
                1,
                Vec::new(),
                TerminatorKind::Branch { condition: copy(2), then_bb: BasicBlockId(2), else_bb: BasicBlockId(3) },
            ),
            block(
                2,
                vec![live(4), assign(4, binary("Add", copy(1), copy(1))), live(3), assign(3, Rvalue::Use(copy(4))), assign(0, Rvalue::Use(copy(3)))],
                goto(4),
            ),
            block(3, vec![assign(0, Rvalue::Use(int_op("0")))], goto(4)),
            block(4, Vec::new(), TerminatorKind::Return),
        ],
    );
    fold_function_constants(&mut f);

    assert!(f.blocks.iter().any(|block| {
        block.statements.iter().any(|statement| {
            matches!(&statement.kind, StatementKind::Assign(_, value) if integer_of(value).as_deref() == Some("8"))
        })
    }));
    assert!(matches!(f.blocks[1].terminator, TerminatorKind::Goto { .. }));
}

#[test]
fn optimizer_removes_unreachable_blocks() {
    // if true { 1 } else { 2 }
    let mut f = function(
        "main",
        Vec::new(),
        vec![local(0, "_return", Type::Int)],
        vec![
            block(
                0,
                vec![live(0)],
                TerminatorKind::Branch { condition: boolean(true), then_bb: BasicBlockId(1), else_bb: BasicBlockId(2) },
            ),
            block(1, vec![assign(0, Rvalue::Use(int_op("1")))], goto(3)),
            block(2, vec![assign(0, Rvalue::Use(int_op("2")))], goto(3)),
            block(3, Vec::new(), TerminatorKind::Return),
        ],
    );
    let before = f.blocks.len();
    optimize_function(&mut f);

    assert!(f.blocks.len() < before);
    assert!(f.blocks.iter().all(|block| !matches!(block.terminator, TerminatorKind::Branch { .. })));
}

fn is_integer_operand(operand: &Operand, expected: &str) -> bool {
    matches!(operand, Operand::Constant(Constant { value: ConstantValue::Integer(value), .. }) if value == expected)
}

fn is_identity_binary(statement: &Statement) -> bool {
    let StatementKind::Assign(_, Rvalue::BinaryOp { op, left, right }) = &statement.kind else {
        return false;
    };
    (op == "Multiply" && is_integer_operand(right, "1"))
        || (op == "Add" && (is_integer_operand(left, "0") || is_integer_operand(right, "0")))
}

#[test]
fn optimizer_simplifies_identity_arithmetic() {
    // fn passthrough(value: int) -> int { let multiplied = value * 1; multiplied + 0 }
    let mut f = function(
        "passthrough",
        vec![Type::Int],
        vec![
            local(0, "_return", Type::Int),
            local(1, "value", Type::Int),
            local(2, "multiplied", Type::Int),
            local(3, "sum", Type::Int),
        ],
        vec![
            block(
                0,
                vec![
                    live(0),
                    live(1),
                    live(2),
                    assign(2, binary("Multiply", copy(1), int_op("1"))),
                    live(3),
                    assign(3, binary("Add", copy(2), int_op("0"))),
                    assign(0, Rvalue::Use(copy(3))),
                ],
                TerminatorKind::Return,
            ),
        ],
    );
    optimize_function(&mut f);

    assert!(f.blocks.iter().all(|block| block.statements.iter().all(|statement| !is_identity_binary(statement))));
}

fn call_function(name: &str, callee: Option<&str>, value: &str) -> MirFunction {
    let blocks = match callee {
        Some(callee) => vec![
            block(
                0,
                vec![live(0)],
                TerminatorKind::Call {
                    callee: Operand::Constant(Constant { ty: Type::Int, value: ConstantValue::Function(callee.to_string()) }),
                    args: Vec::new(),
                    destination: Some(Place::new(LocalId(0))),
                    target: BasicBlockId(1),
                },
            ),
            block(1, Vec::new(), TerminatorKind::Return),
        ],
        None => vec![block(0, vec![live(0), assign(0, Rvalue::Use(int_op(value)))], TerminatorKind::Return)],
    };
    function(name, Vec::new(), vec![local(0, "_return", Type::Int)], blocks)
}

#[test]
fn optimizer_prunes_unreachable_functions() {
    let mut mir = MirProgram {
        functions: vec![
            call_function("helper", None, "9"),
            call_function("unused", None, "3"),
            call_function("main", Some("helper"), "0"),
        ],
        span: span(),
    };
    optimize_program(&mut mir);

    assert_eq!(mir.functions.len(), 2);
    assert!(mir.functions.iter().any(|function| function.name == "helper"));
    assert!(mir.functions.iter().all(|function| function.name != "unused"));
}

#[test]
fn programs_without_main_keep_every_function() {
    let mut mir = MirProgram {
        functions: vec![call_function("helper", None, "9"), call_function("unused", None, "3")],
        span: span(),
    };
    optimize_program(&mut mir);
    assert_eq!(mir.functions.len(), 2);
    assert_eq!(mir.functions[1].name, "unused");
}

#[test]
fn integer_arithmetic_folds_exactly() {
    assert_eq!(evaluated(binary("Add", int_op("40"), int_op("2"))), Some(ConstantValue::Integer("42".to_string())));
    assert_eq!(evaluated(binary("Subtract", int_op("2"), int_op("40"))), Some(ConstantValue::Integer("-38".to_string())));
    assert_eq!(evaluated(binary("Multiply", int_op("-6"), int_op("7"))), Some(ConstantValue::Integer("-42".to_string())));
    assert_eq!(evaluated(binary("Divide", int_op("-7"), int_op("2"))), Some(ConstantValue::Integer("-3".to_string())));
    assert_eq!(evaluated(binary("Divide", int_op("7"), int_op("-2"))), Some(ConstantValue::Integer("-3".to_string())));
    assert_eq!(evaluated(binary("Divide", int_op("+9"), int_op("3"))), Some(ConstantValue::Integer("3".to_string())));
    assert_eq!(evaluated(binary("Divide", int_op("1"), int_op("0"))), None);
    assert_eq!(evaluated(binary("Add", int_op("1"), int_op("x"))), None);
    assert_eq!(evaluated(binary("Less", int_op("1"), int_op("2"))), None);
}

#[test]
fn unary_booleans_and_strings_fold() {
    assert_eq!(
        evaluated(Rvalue::UnaryOp { op: "Negate".to_string(), operand: int_op("5") }),
        Some(ConstantValue::Integer("-5".to_string()))
    );
    assert_eq!(
        evaluated(Rvalue::UnaryOp { op: "Not".to_string(), operand: boolean(true) }),
        Some(ConstantValue::Bool(false))
    );
    assert_eq!(evaluated(Rvalue::UnaryOp { op: "Not".to_string(), operand: int_op("1") }), None);
    assert_eq!(evaluated(binary("And", boolean(true), boolean(false))), Some(ConstantValue::Bool(false)));
    assert_eq!(evaluated(binary("Or", boolean(false), boolean(true))), Some(ConstantValue::Bool(true)));
    assert_eq!(evaluated(binary("Add", text("ab"), text("cd"))), Some(ConstantValue::String("abcd".to_string())));
    assert_eq!(evaluated(binary("Subtract", text("ab"), text("cd"))), None);
    assert_eq!(evaluated(binary("Add", copy(1), int_op("1"))), None);
    assert_eq!(evaluated(Rvalue::Use(int_op("12"))), Some(ConstantValue::Integer("12".to_string())));
    let folded = evaluate_constant_rvalue(&binary("Add", int_op("1"), int_op("2"))).expect("constant");
    assert_eq!(folded.ty, Type::Int);
}

#[test]
fn block_folding_replaces_constant_assignments() {
    let mut b = block(
        0,
        vec![live(1), assign(1, binary("Multiply", int_op("6"), int_op("7"))), assign(2, binary("Add", copy(1), int_op("1")))],
        TerminatorKind::Return,
    );
    fold_block_constants(&mut b);
    assert_eq!(b.statements.len(), 3);
    assert_eq!(b.statements[0].kind, StatementKind::StorageLive(LocalId(1)));
    assert!(matches!(&b.statements[1].kind, StatementKind::Assign(_, value) if integer_of(value).as_deref() == Some("42")));
    assert_eq!(b.statements[2].kind, StatementKind::Assign(Place::new(LocalId(2)), binary("Add", copy(1), int_op("1"))));
    assert_eq!(b.terminator, TerminatorKind::Return);
}

#[test]
fn disagreeing_predecessors_keep_a_local_unknown() {
    // bb0 branches on a parameter; bb1 sets x = 1, bb2 sets x = 2; bb3 reads x.
    let mut f = function(
        "main",
        vec![Type::Bool],
        vec![local(0, "_return", Type::Int), local(1, "flag", Type::Bool), local(2, "x", Type::Int)],
        vec![
            block(
                0,
                vec![live(0)],
                TerminatorKind::Branch { condition: copy(1), then_bb: BasicBlockId(1), else_bb: BasicBlockId(2) },
            ),
            block(1, vec![assign(2, Rvalue::Use(int_op("1")))], goto(3)),
            block(2, vec![assign(2, Rvalue::Use(int_op("2")))], goto(3)),
            block(3, vec![assign(0, binary("Add", copy(2), int_op("1")))], TerminatorKind::Return),
        ],
    );
    fold_function_constants(&mut f);
    assert_eq!(f.blocks[3].statements[0].kind, StatementKind::Assign(Place::new(LocalId(0)), binary("Add", copy(2), int_op("1"))));
    assert!(matches!(f.blocks[0].terminator, TerminatorKind::Branch { .. }));
}

#[test]
fn boolean_identities_and_absorbing_zero() {
    let mut f = function(
        "main",
        vec![Type::Bool, Type::Int],
        vec![local(0, "_return", Type::Int), local(1, "flag", Type::Bool), local(2, "n", Type::Int), local(3, "b", Type::Bool)],
        vec![block(
            0,
            vec![
                assign(3, binary("And", copy(1), boolean(false))),
                assign(3, binary("Or", boolean(false), copy(1))),
                assign(0, binary("Multiply", copy(2), int_op("0"))),
            ],
            TerminatorKind::Return,
        )],
    );
    optimize_function(&mut f);
    let statements = &f.blocks[0].statements;
    assert_eq!(statements[0].kind, StatementKind::Assign(Place::new(LocalId(3)), Rvalue::Use(boolean(false))));
    assert_eq!(statements[1].kind, StatementKind::Assign(Place::new(LocalId(3)), Rvalue::Use(copy(1))));
    assert_eq!(statements[2].kind, StatementKind::Assign(Place::new(LocalId(0)), Rvalue::Use(Operand::Constant(Constant { ty: Type::Int, value: ConstantValue::Integer("0".to_string()) }))));
}

#[test]
fn well_formed_functions_name_only_their_blocks_and_locals() {
    let good = function("f", vec![], vec![local(0, "x", Type::Int)], vec![block(0, vec![live(0)], goto(1)), block(1, vec![], TerminatorKind::Return)]);
    assert!(is_well_formed(&good));
    let missing_block = function("f", vec![], vec![local(0, "x", Type::Int)], vec![block(0, vec![], goto(2)), block(1, vec![], TerminatorKind::Return)]);
    assert!(!is_well_formed(&missing_block));
    let missing_local = function("f", vec![], vec![local(0, "x", Type::Int)], vec![block(0, vec![live(1)], TerminatorKind::Return)]);
    assert!(!is_well_formed(&missing_local));
    let mut bad_entry = function("f", vec![], vec![], vec![block(0, vec![], TerminatorKind::Return)]);
    bad_entry.entry = BasicBlockId(1);
    assert!(!is_well_formed(&bad_entry));
}
