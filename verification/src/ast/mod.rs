pub mod nodes;
pub mod span;

pub use nodes::{
    BinaryOp, Block, ConstStmt, EnumDecl, EnumVariant, Expr, ExprKind, ForStmt, FunctionDecl, Import,
    Item, LetStmt, Literal, MatchArm, Module, Param, Path, Pattern, PatternKind, ReturnStmt, Stmt,
    StructDecl, StructField, StructLiteralField, TypeRef, TypeRefKind, UnaryOp, Visibility,
    WhileStmt,
};
pub use span::{Position, Span, Spanned};
