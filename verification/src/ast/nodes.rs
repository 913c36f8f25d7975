//! The abstract syntax tree of Mentalogue source files.

use vstd::prelude::*;
use super::span::{Span, Spanned};

verus! {

#[derive(Debug, PartialEq, Eq)]
pub struct Module {
    pub items: Vec<Item>,
    pub span: Span,
}

impl Spanned for Module {
    fn span(&self) -> (s: Span)
        ensures
            s == self.span,
    {
        self.span
    }
}

#[derive(Debug, PartialEq, Eq)]
pub enum Item {
    Import(Import),
    Struct(StructDecl),
    Enum(EnumDecl),
    Function(FunctionDecl),
}

/// The span of an item: that of the declaration it holds.
pub open spec fn item_span(item: Item) -> Span {
    match item {
        Item::Import(i) => i.span,
        Item::Struct(i) => i.span,
        Item::Enum(i) => i.span,
        Item::Function(i) => i.span,
    }
}

impl Spanned for Item {
    fn span(&self) -> (s: Span)
        ensures
            s == item_span(*self),
    {
        match self {
            Item::Import(item) => item.span,
            Item::Struct(item) => item.span,
            Item::Enum(item) => item.span,
            Item::Function(item) => item.span,
        }
    }
}

#[derive(Debug, PartialEq, Eq)]
pub struct Import {
    pub path: Path,
    pub span: Span,
}

impl Spanned for Import {
    fn span(&self) -> (s: Span)
        ensures
            s == self.span,
    {
        self.span
    }
}

#[derive(Debug, PartialEq, Eq)]
pub struct StructDecl {
    pub name: String,
    pub name_span: Span,
    pub fields: Vec<StructField>,
    pub span: Span,
}

impl Spanned for StructDecl {
    fn span(&self) -> (s: Span)
        ensures
            s == self.span,
    {
        self.span
    }
}

#[derive(Debug, PartialEq, Eq)]
pub struct StructField {
    pub name: String,
    pub name_span: Span,
    pub ty: TypeRef,
    pub span: Span,
}

impl Spanned for StructField {
    fn span(&self) -> (s: Span)
        ensures
            s == self.span,
    {
        self.span
    }
}

#[derive(Debug, PartialEq, Eq)]
pub struct EnumDecl {
    pub name: String,
    pub name_span: Span,
    pub variants: Vec<EnumVariant>,
    pub span: Span,
}

impl Spanned for EnumDecl {
    fn span(&self) -> (s: Span)
        ensures
            s == self.span,
    {
        self.span
    }
}

#[derive(Debug, PartialEq, Eq)]
pub struct EnumVariant {
    pub name: String,
    pub name_span: Span,
    pub span: Span,
}

impl Spanned for EnumVariant {
    fn span(&self) -> (s: Span)
        ensures
            s == self.span,
    {
        self.span
    }
}

#[derive(Debug, PartialEq, Eq)]
pub struct FunctionDecl {
    pub visibility: Visibility,
    pub receiver: Option<Path>,
    pub name: String,
    pub name_span: Span,
    pub params: Vec<Param>,
    pub return_type: Option<TypeRef>,
    pub body: Option<Block>,
    pub span: Span,
}

impl Spanned for FunctionDecl {
    fn span(&self) -> (s: Span)
        ensures
            s == self.span,
    {
        self.span
    }
}

#[derive(Debug, Clone, Copy, PartialEq, Eq, Structural)]
pub enum Visibility {
    Public,
    Private,
}

#[derive(Debug, PartialEq, Eq)]
pub struct Param {
    pub name: String,
    pub name_span: Span,
    pub ty: Option<TypeRef>,
    pub span: Span,
}

impl Spanned for Param {
    fn span(&self) -> (s: Span)
        ensures
            s == self.span,
    {
        self.span
    }
}

#[derive(Debug, PartialEq, Eq)]
pub struct Block {
    pub statements: Vec<Stmt>,
    pub span: Span,
}

impl Spanned for Block {
    fn span(&self) -> (s: Span)
        ensures
            s == self.span,
    {
        self.span
    }
}

#[derive(Debug, PartialEq, Eq)]
pub enum Stmt {
    Let(LetStmt),
    Const(ConstStmt),
    For(ForStmt),
    While(WhileStmt),
    Return(ReturnStmt),
    Expr(Expr),
}

/// The span of a statement: that of the statement or expression it holds.
pub open spec fn stmt_span(stmt: Stmt) -> Span {
    match stmt {
        Stmt::Let(s) => s.span,
        Stmt::Const(s) => s.span,
        Stmt::For(s) => s.span,
        Stmt::While(s) => s.span,
        Stmt::Return(s) => s.span,
        Stmt::Expr(e) => e.span,
    }
}

impl Spanned for Stmt {
    fn span(&self) -> (s: Span)
        ensures
            s == stmt_span(*self),
    {
        match self {
            Stmt::Let(stmt) => stmt.span,
            Stmt::Const(stmt) => stmt.span,
            Stmt::For(stmt) => stmt.span,
            Stmt::While(stmt) => stmt.span,
            Stmt::Return(stmt) => stmt.span,
            Stmt::Expr(expr) => expr.span,
        }
    }
}

#[derive(Debug, PartialEq, Eq)]
pub struct LetStmt {
    pub name: String,
    pub name_span: Span,
    pub ty: Option<TypeRef>,
    pub value: Expr,
    pub span: Span,
}

impl Spanned for LetStmt {
    fn span(&self) -> (s: Span)
        ensures
            s == self.span,
    {
        self.span
    }
}

#[derive(Debug, PartialEq, Eq)]
pub struct ConstStmt {
    pub name: String,
    pub name_span: Span,
    pub ty: Option<TypeRef>,
    pub value: Expr,
    pub span: Span,
}

impl Spanned for ConstStmt {
    fn span(&self) -> (s: Span)
        ensures
            s == self.span,
    {
        self.span
    }
}

#[derive(Debug, PartialEq, Eq)]
pub struct ForStmt {
    pub pattern: Pattern,
    pub iterable: Expr,
    pub body: Block,
    pub span: Span,
}

impl Spanned for ForStmt {
    fn span(&self) -> (s: Span)
        ensures
            s == self.span,
    {
        self.span
    }
}

#[derive(Debug, PartialEq, Eq)]
pub struct WhileStmt {
    pub condition: Expr,
    pub body: Block,
    pub span: Span,
}

impl Spanned for WhileStmt {
    fn span(&self) -> (s: Span)
        ensures
            s == self.span,
    {
        self.span
    }
}

#[derive(Debug, PartialEq, Eq)]
pub struct ReturnStmt {
    pub value: Option<Expr>,
    pub span: Span,
}

impl Spanned for ReturnStmt {
    fn span(&self) -> (s: Span)
        ensures
            s == self.span,
    {
        self.span
    }
}

#[derive(Debug, PartialEq, Eq)]
pub struct Expr {
    pub kind: ExprKind,
    pub span: Span,
}

impl Spanned for Expr {
    fn span(&self) -> (s: Span)
        ensures
            s == self.span,
    {
        self.span
    }
}

impl Expr {
    pub fn new(kind: ExprKind, span: Span) -> (e: Self)
        ensures
            e == (Expr { kind, span }),
    {
        Expr { kind, span }
    }
}

#[derive(Debug, PartialEq, Eq)]
pub enum ExprKind {
    Literal(Literal),
    Path(Path),
    Array(Vec<Expr>),
    RepeatArray { value: Box<Expr>, length: usize },
    Unary { op: UnaryOp, expr: Box<Expr> },
    Binary { op: BinaryOp, left: Box<Expr>, right: Box<Expr> },
    Call { callee: Box<Expr>, args: Vec<Expr> },
    Field { base: Box<Expr>, field: String },
    Index { target: Box<Expr>, index: Box<Expr> },
    StructLiteral { path: Path, fields: Vec<StructLiteralField> },
    If { condition: Box<Expr>, then_block: Block, else_branch: Option<Box<Expr>> },
    Match { value: Box<Expr>, arms: Vec<MatchArm> },
    Block(Block),
    Try(Box<Expr>),
}

#[derive(Debug, PartialEq, Eq)]
pub struct StructLiteralField {
    pub name: String,
    pub name_span: Span,
    pub value: Expr,
    pub span: Span,
}

impl Spanned for StructLiteralField {
    fn span(&self) -> (s: Span)
        ensures
            s == self.span,
    {
        self.span
    }
}

#[derive(Debug, PartialEq, Eq)]
pub struct MatchArm {
    pub pattern: Pattern,
    pub value: Expr,
    pub span: Span,
}

impl Spanned for MatchArm {
    fn span(&self) -> (s: Span)
        ensures
            s == self.span,
    {
        self.span
    }
}

#[derive(Debug, PartialEq, Eq)]
pub struct Pattern {
    pub kind: PatternKind,
    pub span: Span,
}

impl Spanned for Pattern {
    fn span(&self) -> (s: Span)
        ensures
            s == self.span,
    {
        self.span
    }
}

impl Pattern {
    pub fn new(kind: PatternKind, span: Span) -> (p: Self)
        ensures
            p == (Pattern { kind, span }),
    {
        Pattern { kind, span }
    }
}

#[derive(Debug, PartialEq, Eq)]
pub enum PatternKind {
    Wildcard,
    Binding(String),
    Literal(Literal),
    Path(Path),
    Constructor { path: Path, arguments: Vec<Pattern> },
}

#[derive(Debug, Clone, PartialEq, Eq)]
pub enum Literal {
    Integer(String),
    Float(String),
    String(String),
    Bool(bool),
}

#[derive(Debug, Clone, Copy, PartialEq, Eq, Structural)]
pub enum UnaryOp {
    Negate,
    Not,
}

#[derive(Debug, Clone, Copy, PartialEq, Eq, Structural)]
pub enum BinaryOp {
    Assign,
    Range,
    Or,
    And,
    Equal,
    NotEqual,
    Less,
    LessEqual,
    Greater,
    GreaterEqual,
    Add,
    Subtract,
    Multiply,
    Divide,
}

#[derive(Debug, PartialEq, Eq)]
pub struct TypeRef {
    pub kind: TypeRefKind,
    pub span: Span,
}

impl Spanned for TypeRef {
    fn span(&self) -> (s: Span)
        ensures
            s == self.span,
    {
        self.span
    }
}

#[derive(Debug, PartialEq, Eq)]
pub enum TypeRefKind {
    Path { path: Path, arguments: Vec<TypeRef> },
    Array { element: Box<TypeRef>, length: usize },
}

#[derive(Debug, Clone, PartialEq, Eq)]
pub struct Path {
    pub segments: Vec<String>,
    pub segment_spans: Vec<Span>,
    pub span: Span,
}

impl Path {
    /// A path whose segments all carry the span of the whole path.
    pub fn new(segments: Vec<String>, span: Span) -> (p: Self)
        ensures
            p.segments@ == segments@,
            p.segment_spans@ == Seq::new(segments@.len(), |i: int| span),
            p.span == span,
    {
        let segment_spans = vec![span; segments.len()];
        assert(segment_spans@ =~= Seq::new(segments@.len(), |i: int| span));
        Path { segment_spans, segments, span }
    }

    pub fn with_segment_spans(segments: Vec<String>, segment_spans: Vec<Span>, span: Span) -> (p: Self)
        requires
            segments@.len() == segment_spans@.len(),
        ensures
            p.segments@ == segments@,
            p.segment_spans@ == segment_spans@,
            p.span == span,
    {
        Path { segments, segment_spans, span }
    }

    pub fn first(&self) -> (r: Option<&str>)
        ensures
            self.segments@.len() == 0 ==> r is None,
            self.segments@.len() > 0 ==> (r matches Some(s) && s@ == self.segments@[0]@),
    {
        if self.segments.len() == 0 {
            None
        } else {
            Some(self.segments[0].as_str())
        }
    }

    pub fn last(&self) -> (r: Option<&str>)
        ensures
            self.segments@.len() == 0 ==> r is None,
            self.segments@.len() > 0 ==> (r matches Some(s) && s@ == self.segments@.last()@),
    {
        if self.segments.len() == 0 {
            None
        } else {
            Some(self.segments[self.segments.len() - 1].as_str())
        }
    }

    pub fn segment_span(&self, index: usize) -> (r: Option<Span>)
        ensures
            r == (if index < self.segment_spans@.len() { Some(self.segment_spans@[index as int]) } else { None }),
    {
        if index < self.segment_spans.len() {
            Some(self.segment_spans[index])
        } else {
            None
        }
    }
}

impl Spanned for Path {
    fn span(&self) -> (s: Span)
        ensures
            s == self.span,
    {
        self.span
    }
}

} // verus!
