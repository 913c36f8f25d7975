use inscribe::ast::span::{Position, Span};
use inscribe::ast::Visibility;
use inscribe::hir::{
    renderable, render, render_expr, render_statement, HirBinding, HirBlock, HirEnum, HirEnumVariant, HirExpr, HirExprKind,
    HirField, HirFunction, HirImport, HirItem, HirParam, HirProgram, HirStmt, HirStruct, HirSymbol, HirSymbolId,
    HirSymbolKind, HirWhile,
};
use inscribe::mir::lower::lower_program as lower_mir;
use inscribe::mir::optimize::is_well_formed;
use inscribe::mir::{check_mutable_assignments, BasicBlockId, TerminatorKind};
use inscribe::types::{FunctionKey, FunctionSignature, Type};

fn span() -> Span {
    Span::new(Position::new(0, 1, 1), Position::new(4, 1, 5))
}

fn symbol(id: usize, name: &str, kind: HirSymbolKind) -> HirSymbol {
    HirSymbol { id: HirSymbolId(id), name: name.to_string(), kind, span: span() }
}

fn expr(kind: HirExprKind, ty: Type) -> HirExpr {
    HirExpr { kind, ty, span: span() }
}

fn signature(receiver: Option<&str>, name: &str, params: Vec<Type>, return_type: Type) -> FunctionSignature {
    FunctionSignature {
        key: FunctionKey { receiver: receiver.map(|r| r.to_string()), name: name.to_string() },
        params,
        return_type: Box::new(return_type),
    }
}

// struct User { name: string }
// fn User.greet(self) -> string { self.name }
// fn main() -> int { let user = User { name: "Antonio" }; let label = user.greet(); label; 1 }
fn user_program() -> HirProgram {
    let symbols = vec![
        symbol(0, "User", HirSymbolKind::Struct),
        symbol(1, "name", HirSymbolKind::Field),
        symbol(2, "User.greet", HirSymbolKind::Function),
        symbol(3, "self", HirSymbolKind::Param),
        symbol(4, "main", HirSymbolKind::Function),
        symbol(5, "user", HirSymbolKind::Local),
        symbol(6, "label", HirSymbolKind::Local),
    ];
    let user = HirItem::Struct(HirStruct {
        symbol: HirSymbolId(0),
        fields: vec![HirField { symbol: HirSymbolId(1), ty: Type::String, span: span() }],
        span: span(),
    });
    let greet = HirItem::Function(HirFunction {
        symbol: HirSymbolId(2),
        visibility: Visibility::Public,
        receiver: Some(HirSymbolId(0)),
        signature: signature(Some("User"), "greet", vec![Type::Struct("User".to_string())], Type::String),
        params: vec![HirParam { symbol: HirSymbolId(3), ty: Type::Struct("User".to_string()), span: span() }],
        is_declaration: false,
        body: Some(HirBlock {
            statements: vec![HirStmt::Expr(expr(
                HirExprKind::Field {
                    base: Box::new(expr(HirExprKind::Path(HirSymbolId(3)), Type::Struct("User".to_string()))),
                    field: HirSymbolId(1),
                },
                Type::String,
            ))],
            ty: Type::String,
            span: span(),
        }),
        span: span(),
    });
    let literal = expr(
        HirExprKind::StructLiteral {
            struct_id: HirSymbolId(0),
            fields: vec![(HirSymbolId(1), expr(HirExprKind::Literal("\"Antonio\"".to_string()), Type::String))],
        },
        Type::Struct("User".to_string()),
    );
    let call = expr(
        HirExprKind::Call {
            callee: Box::new(expr(
                HirExprKind::Field {
                    base: Box::new(expr(HirExprKind::Path(HirSymbolId(5)), Type::Struct("User".to_string()))),
                    field: HirSymbolId(2),
                },
                Type::String,
            )),
            args: Vec::new(),
        },
        Type::String,
    );
    let main = HirItem::Function(HirFunction {
        symbol: HirSymbolId(4),
        visibility: Visibility::Public,
        receiver: None,
        signature: signature(None, "main", Vec::new(), Type::Int),
        params: Vec::new(),
        is_declaration: false,
        body: Some(HirBlock {
            statements: vec![
                HirStmt::Let(HirBinding {
                    symbol: HirSymbolId(5),
                    ty: Type::Struct("User".to_string()),
                    value: literal,
                    span: span(),
                }),
                HirStmt::Let(HirBinding { symbol: HirSymbolId(6), ty: Type::String, value: call, span: span() }),
                HirStmt::Expr(expr(HirExprKind::Path(HirSymbolId(6)), Type::String)),
                HirStmt::Expr(expr(HirExprKind::Literal("1".to_string()), Type::Int)),
            ],
            ty: Type::Int,
            span: span(),
        }),
        span: span(),
    });
    HirProgram { items: vec![user, greet, main], symbols, span: span() }
}

#[test]
fn lowers_a_typed_program_into_hir() {
    let hir = user_program();
    let printed = render(&hir);

    assert!(printed.contains("fn User.greet -> string"));
    assert!(printed.contains("let label: string"));
    assert!(printed.contains("User {...}: User"));
}

#[test]
fn renders_every_item_line_by_line() {
    let hir = user_program();
    let expected = "struct User {\n  name: string\n}\nfn User.greet -> string\n  self: User.name: string\nfn main -> int\n  let user: User = User {...}: User\n  let label: string = user: User.User.greet: string(): string\n  label: string\n  1: int\n";
    assert_eq!(render(&hir), expected);
    assert_eq!(hir.symbol_name(HirSymbolId(6)), "label");
    assert_eq!(hir.symbol(HirSymbolId(0)).kind, HirSymbolKind::Struct);
}

#[test]
fn renders_imports_enums_declarations_and_private_functions() {
    let symbols = vec![
        symbol(0, "io", HirSymbolKind::Import),
        symbol(1, "Color", HirSymbolKind::Enum),
        symbol(2, "Red", HirSymbolKind::Variant),
        symbol(3, "Blue", HirSymbolKind::Variant),
        symbol(4, "print_int", HirSymbolKind::Function),
        symbol(5, "helper", HirSymbolKind::Function),
    ];
    let items = vec![
        HirItem::Import(HirImport { symbol: HirSymbolId(0), path: vec!["std".to_string(), "io".to_string()], span: span() }),
        HirItem::Enum(HirEnum {
            symbol: HirSymbolId(1),
            variants: vec![
                HirEnumVariant { symbol: HirSymbolId(2), discriminant: 0, span: span() },
                HirEnumVariant { symbol: HirSymbolId(3), discriminant: 12, span: span() },
            ],
            span: span(),
        }),
        HirItem::Function(HirFunction {
            symbol: HirSymbolId(4),
            visibility: Visibility::Public,
            receiver: None,
            signature: signature(None, "print_int", vec![Type::Int], Type::Unit),
            params: Vec::new(),
            is_declaration: true,
            body: None,
            span: span(),
        }),
        HirItem::Function(HirFunction {
            symbol: HirSymbolId(5),
            visibility: Visibility::Private,
            receiver: None,
            signature: signature(None, "helper", Vec::new(), Type::Unit),
            params: Vec::new(),
            is_declaration: false,
            body: Some(HirBlock { statements: vec![HirStmt::Return(None, span())], ty: Type::Unit, span: span() }),
            span: span(),
        }),
    ];
    let hir = HirProgram { items, symbols, span: span() };
    assert_eq!(
        render(&hir),
        "import std.io\nenum Color {\n  Red = 0\n  Blue = 12\n}\nfn print_int -> ()\n  <declaration>\npriv fn helper -> ()\n  return\n"
    );
}

#[test]
fn expressions_carry_their_types() {
    let hir = user_program();
    let lit = |text: &str| expr(HirExprKind::Literal(text.to_string()), Type::Int);
    let sum = expr(
        HirExprKind::Binary { op: "Add".to_string(), left: Box::new(lit("1")), right: Box::new(lit("2")) },
        Type::Int,
    );
    assert_eq!(render_expr(&hir, &sum), "(1: int Add 2: int): int");
    let array = expr(HirExprKind::Array(vec![lit("1"), lit("2")]), Type::Array(Box::new(Type::Int), 2));
    assert_eq!(render_expr(&hir, &array), "[1: int, 2: int]: [int; 2]");
    let repeat = expr(HirExprKind::RepeatArray { value: Box::new(lit("0")), length: 3 }, Type::Array(Box::new(Type::Int), 3));
    assert_eq!(render_expr(&hir, &repeat), "[0: int; 3]: [int; 3]");
    let negated = expr(HirExprKind::Unary { op: "Negate".to_string(), expr: Box::new(lit("4")) }, Type::Int);
    assert_eq!(render_expr(&hir, &negated), "(Negate 4: int): int");
    let cast = expr(HirExprKind::Cast { expr: Box::new(lit("4")) }, Type::Byte);
    assert_eq!(render_expr(&hir, &cast), "(4: int as byte): byte");
    let variant = expr(
        HirExprKind::EnumVariant { enum_id: HirSymbolId(0), variant_id: HirSymbolId(1), discriminant: 7 },
        Type::Enum("User".to_string()),
    );
    assert_eq!(render_expr(&hir, &variant), "User.name#7: User");
    let tried = expr(HirExprKind::Try(Box::new(lit("5"))), Type::Int);
    assert_eq!(render_expr(&hir, &tried), "5: int?: int");
    let while_stmt = HirStmt::Return(Some(lit("9")), span());
    assert_eq!(render_statement(&hir, &while_stmt), "return 9: int");
}

#[test]
fn programs_naming_missing_symbols_are_not_renderable() {
    let program = user_program();
    assert!(renderable(&program));
    let mut broken = user_program();
    broken.symbols.truncate(1);
    assert!(!renderable(&broken));
}

fn binary(op: &str, left: HirExpr, right: HirExpr, ty: Type) -> HirExpr {
    expr(HirExprKind::Binary { op: op.to_string(), left: Box::new(left), right: Box::new(right) }, ty)
}

fn int_literal(value: &str) -> HirExpr {
    expr(HirExprKind::Literal(value.to_string()), Type::Int)
}

fn path(id: usize, ty: Type) -> HirExpr {
    expr(HirExprKind::Path(HirSymbolId(id)), ty)
}

// fn main() -> int {
//     let sum = 0
//     let limit = 3
//     while limit > 0 { sum = sum + 1  limit = limit - 1 }
//     sum
// }
fn counting_program() -> HirProgram {
    let symbols = vec![
        symbol(0, "main", HirSymbolKind::Function),
        symbol(1, "sum", HirSymbolKind::Local),
        symbol(2, "limit", HirSymbolKind::Local),
    ];
    let body = HirBlock {
        statements: vec![
            HirStmt::Let(HirBinding { symbol: HirSymbolId(1), ty: Type::Int, value: int_literal("0"), span: span() }),
            HirStmt::Let(HirBinding { symbol: HirSymbolId(2), ty: Type::Int, value: int_literal("3"), span: span() }),
            HirStmt::While(HirWhile {
                condition: binary("Greater", path(2, Type::Int), int_literal("0"), Type::Bool),
                body: HirBlock {
                    statements: vec![
                        HirStmt::Expr(binary(
                            "Assign",
                            path(1, Type::Int),
                            binary("Add", path(1, Type::Int), int_literal("1"), Type::Int),
                            Type::Unit,
                        )),
                        HirStmt::Expr(binary(
                            "Assign",
                            path(2, Type::Int),
                            binary("Subtract", path(2, Type::Int), int_literal("1"), Type::Int),
                            Type::Unit,
                        )),
                    ],
                    ty: Type::Unit,
                    span: span(),
                },
                span: span(),
            }),
            HirStmt::Expr(path(1, Type::Int)),
        ],
        ty: Type::Int,
        span: span(),
    };
    let main = HirItem::Function(HirFunction {
        symbol: HirSymbolId(0),
        visibility: Visibility::Public,
        receiver: None,
        signature: signature(None, "main", Vec::new(), Type::Int),
        params: Vec::new(),
        is_declaration: false,
        body: Some(body),
        span: span(),
    });
    HirProgram { items: vec![main], symbols, span: span() }
}

#[test]
fn lowers_control_flow_into_cfg_blocks() {
    let mir = lower_mir(&counting_program());
    let function = &mir.functions[0];
    assert!(function.blocks.len() >= 4);
    assert!(function.blocks.iter().any(|block| matches!(block.terminator, TerminatorKind::Branch { .. })));
    assert!(matches!(
        function.blocks.last().map(|block| &block.terminator),
        Some(TerminatorKind::Return) | Some(TerminatorKind::Unreachable)
    ));
    assert!(check_mutable_assignments(function).is_empty());
}

#[test]
fn lowered_functions_are_well_formed_and_return_through_local_zero() {
    let mir = lower_mir(&user_program());
    assert_eq!(mir.functions.len(), 2);
    assert_eq!(mir.functions[0].receiver.as_deref(), Some("User"));
    assert_eq!(mir.functions[0].name, "greet");
    for function in &mir.functions {
        assert!(is_well_formed(function));
        assert_eq!(function.locals[0].name, "_return");
        assert_eq!(function.entry, BasicBlockId(0));
        for (index, block) in function.blocks.iter().enumerate() {
            assert_eq!(block.id, BasicBlockId(index));
        }
    }
    let counting = lower_mir(&counting_program());
    let main = &counting.functions[0];
    let names: Vec<&str> = main.locals.iter().map(|local| local.name.as_str()).collect();
    assert_eq!(&names[..3], &["_return", "sum", "limit"]);
}
