//! The high-level IR: a resolved and typed program, how its literals and patterns are
//! written, and how a whole program is printed.

pub mod display;
pub mod nodes;
pub mod pretty;

pub use display::{literal_display, pattern_display};
pub use pretty::{renderable, render, render_expr, render_statement};
pub use nodes::{
    HirBinding, HirBlock, HirEnum, HirEnumVariant, HirExpr, HirExprKind, HirField, HirFor, HirFunction, HirImport,
    HirItem, HirMatchArm, HirParam, HirProgram, HirStmt, HirStruct, HirSymbol, HirSymbolId, HirSymbolKind, HirWhile,
};
