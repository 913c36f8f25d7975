//! A plain-text rendering of a lowered program: one line per item header, field, variant
//! and top-level statement, each expression followed by its type.

use vstd::prelude::*;
use crate::ast::Visibility;
use crate::text::{decimal, decimal_chars, push_str_chars, string_from_chars};
use crate::types::type_text;
use super::display::joined;
use super::nodes::{
    symbol_text, HirBlock, HirEnum, HirExpr, HirExprKind, HirField, HirFunction, HirImport, HirItem, HirProgram,
    HirStmt, HirStruct, HirSymbolId,
};

verus! {

pub open spec fn id_ok(p: HirProgram, id: HirSymbolId) -> bool {
    id.0 < p.symbols@.len()
}

/// Every symbol the rendering of the expression names is a symbol of the program.
pub open spec fn expr_ok(p: HirProgram, e: HirExpr) -> bool
    decreases e, 0nat,
{
    match e.kind {
        HirExprKind::EnumVariant { enum_id, variant_id, .. } => id_ok(p, enum_id) && id_ok(p, variant_id),
        HirExprKind::Path(s) => id_ok(p, s),
        HirExprKind::Array(items) => exprs_ok(p, items@, items@.len() as int),
        HirExprKind::RepeatArray { value, .. } => expr_ok(p, *value),
        HirExprKind::Cast { expr } => expr_ok(p, *expr),
        HirExprKind::Unary { expr, .. } => expr_ok(p, *expr),
        HirExprKind::Binary { left, right, .. } => expr_ok(p, *left) && expr_ok(p, *right),
        HirExprKind::Call { callee, args } => expr_ok(p, *callee) && exprs_ok(p, args@, args@.len() as int),
        HirExprKind::Field { base, field } => expr_ok(p, *base) && id_ok(p, field),
        HirExprKind::Index { target, index } => expr_ok(p, *target) && expr_ok(p, *index),
        HirExprKind::StructLiteral { struct_id, .. } => id_ok(p, struct_id),
        HirExprKind::Try(inner) => expr_ok(p, *inner),
        _ => true,
    }
}

pub open spec fn exprs_ok(p: HirProgram, items: Seq<HirExpr>, n: int) -> bool
    decreases items, 1nat, n,
{
    if n <= 0 || n > items.len() {
        true
    } else {
        exprs_ok(p, items, n - 1) && expr_ok(p, items[n - 1])
    }
}

/// An expression with its type: `<text>: <type>`, operations in parentheses.
pub open spec fn expr_text(p: HirProgram, e: HirExpr) -> Seq<char>
    decreases e, 0nat,
{
    let ty = type_text(e.ty);
    match e.kind {
        HirExprKind::Literal(value) => value@ + ": "@ + ty,
        HirExprKind::EnumVariant { enum_id, variant_id, discriminant } => symbol_text(p, enum_id) + "."@ + symbol_text(
            p,
            variant_id,
        ) + "#"@ + decimal(discriminant as nat) + ": "@ + ty,
        HirExprKind::Path(s) => symbol_text(p, s) + ": "@ + ty,
        HirExprKind::Array(items) => "["@ + exprs_text(p, items@, items@.len() as int) + "]: "@ + ty,
        HirExprKind::RepeatArray { value, length } => "["@ + expr_text(p, *value) + "; "@ + decimal(length as nat) + "]: "@
            + ty,
        HirExprKind::Cast { expr } => "("@ + expr_text(p, *expr) + " as "@ + ty + "): "@ + ty,
        HirExprKind::Unary { op, expr } => "("@ + op@ + " "@ + expr_text(p, *expr) + "): "@ + ty,
        HirExprKind::Binary { op, left, right } => "("@ + expr_text(p, *left) + " "@ + op@ + " "@ + expr_text(p, *right)
            + "): "@ + ty,
        HirExprKind::Call { callee, args } => expr_text(p, *callee) + "("@ + exprs_text(p, args@, args@.len() as int)
            + "): "@ + ty,
        HirExprKind::Field { base, field } => expr_text(p, *base) + "."@ + symbol_text(p, field) + ": "@ + ty,
        HirExprKind::Index { target, index } => expr_text(p, *target) + "["@ + expr_text(p, *index) + "]: "@ + ty,
        HirExprKind::StructLiteral { struct_id, .. } => symbol_text(p, struct_id) + " {...}: "@ + ty,
        HirExprKind::If { .. } => "if ...: "@ + ty,
        HirExprKind::Match { .. } => "match ...: "@ + ty,
        HirExprKind::Block(block) => "block -> "@ + type_text(block.ty),
        HirExprKind::Try(inner) => expr_text(p, *inner) + "?: "@ + ty,
    }
}

/// The first `n` expressions, separated by `, `.
pub open spec fn exprs_text(p: HirProgram, items: Seq<HirExpr>, n: int) -> Seq<char>
    decreases items, 1nat, n,
{
    if n <= 0 || n > items.len() {
        Seq::empty()
    } else if n == 1 {
        expr_text(p, items[0])
    } else {
        exprs_text(p, items, n - 1) + ", "@ + expr_text(p, items[n - 1])
    }
}

fn push_symbol(out: &mut Vec<char>, program: &HirProgram, id: HirSymbolId)
    requires
        id_ok(*program, id),
    ensures
        final(out)@ == old(out)@ + symbol_text(*program, id),
{
    push_str_chars(out, program.symbol_name(id));
}

fn push_type(out: &mut Vec<char>, ty: &crate::types::Type)
    ensures
        final(out)@ == old(out)@ + type_text(*ty),
{
    let text = ty.display_name();
    push_str_chars(out, text.as_str());
}

fn push_decimal(out: &mut Vec<char>, n: usize)
    ensures
        final(out)@ == old(out)@ + decimal(n as nat),
{
    let mut digits = decimal_chars(n as u64);
    out.append(&mut digits);
}

/// Appends the expressions, separated by `, `.
fn push_exprs(out: &mut Vec<char>, program: &HirProgram, items: &Vec<HirExpr>)
    requires
        exprs_ok(*program, items@, items@.len() as int),
    ensures
        final(out)@ == old(out)@ + exprs_text(*program, items@, items@.len() as int),
    decreases *items, 1nat,
{
    let ghost start = out@;
    let mut i: usize = 0;
    while i < items.len()
        invariant
            i <= items@.len(),
            exprs_ok(*program, items@, items@.len() as int),
            out@ == start + exprs_text(*program, items@, i as int),
        decreases items@.len() - i,
    {
        if i > 0 {
            push_str_chars(out, ", ");
        }
        proof {
            lemma_exprs_ok_at(*program, items@, items@.len() as int, i as int);
            assert(decreases_to!(*items => items@));
            assert(decreases_to!(items@ => items@[i as int]));
        }
        push_expr(out, program, &items[i]);
        proof {
            if i == 0 {
                assert(out@ =~= start + exprs_text(*program, items@, 1));
            } else {
                assert(out@ =~= start + exprs_text(*program, items@, i + 1));
            }
        }
        i += 1;
    }
}

proof fn lemma_exprs_ok_at(p: HirProgram, items: Seq<HirExpr>, n: int, i: int)
    requires
        0 <= i < n <= items.len(),
        exprs_ok(p, items, n),
    ensures
        expr_ok(p, items[i]),
    decreases n,
{
    if i < n - 1 {
        lemma_exprs_ok_at(p, items, n - 1, i);
    }
}

/// Appends the expression with its type.
fn push_expr(out: &mut Vec<char>, program: &HirProgram, expr: &HirExpr)
    requires
        expr_ok(*program, *expr),
    ensures
        final(out)@ == old(out)@ + expr_text(*program, *expr),
    decreases *expr, 0nat,
{
    let ghost start = out@;
    match &expr.kind {
        HirExprKind::Literal(value) => {
            push_str_chars(out, value.as_str());
            push_str_chars(out, ": ");
            push_type(out, &expr.ty);
        },
        HirExprKind::EnumVariant { enum_id, variant_id, discriminant } => {
            push_symbol(out, program, *enum_id);
            push_str_chars(out, ".");
            push_symbol(out, program, *variant_id);
            push_str_chars(out, "#");
            push_decimal(out, *discriminant);
            push_str_chars(out, ": ");
            push_type(out, &expr.ty);
        },
        HirExprKind::Path(symbol) => {
            push_symbol(out, program, *symbol);
            push_str_chars(out, ": ");
            push_type(out, &expr.ty);
        },
        HirExprKind::Array(items) => {
            push_str_chars(out, "[");
            push_exprs(out, program, items);
            push_str_chars(out, "]: ");
            push_type(out, &expr.ty);
        },
        HirExprKind::RepeatArray { value, length } => {
            push_str_chars(out, "[");
            push_expr(out, program, value);
            push_str_chars(out, "; ");
            push_decimal(out, *length);
            push_str_chars(out, "]: ");
            push_type(out, &expr.ty);
        },
        HirExprKind::Cast { expr: inner } => {
            push_str_chars(out, "(");
            push_expr(out, program, inner);
            push_str_chars(out, " as ");
            push_type(out, &expr.ty);
            push_str_chars(out, "): ");
            push_type(out, &expr.ty);
        },
        HirExprKind::Unary { op, expr: inner } => {
            push_str_chars(out, "(");
            push_str_chars(out, op.as_str());
            push_str_chars(out, " ");
            push_expr(out, program, inner);
            push_str_chars(out, "): ");
            push_type(out, &expr.ty);
        },
        HirExprKind::Binary { op, left, right } => {
            push_str_chars(out, "(");
            push_expr(out, program, left);
            push_str_chars(out, " ");
            push_str_chars(out, op.as_str());
            push_str_chars(out, " ");
            push_expr(out, program, right);
            push_str_chars(out, "): ");
            push_type(out, &expr.ty);
        },
        HirExprKind::Call { callee, args } => {
            push_expr(out, program, callee);
            push_str_chars(out, "(");
            push_exprs(out, program, args);
            push_str_chars(out, "): ");
            push_type(out, &expr.ty);
        },
        HirExprKind::Field { base, field } => {
            push_expr(out, program, base);
            push_str_chars(out, ".");
            push_symbol(out, program, *field);
            push_str_chars(out, ": ");
            push_type(out, &expr.ty);
        },
        HirExprKind::Index { target, index } => {
            push_expr(out, program, target);
            push_str_chars(out, "[");
            push_expr(out, program, index);
            push_str_chars(out, "]: ");
            push_type(out, &expr.ty);
        },
        HirExprKind::StructLiteral { struct_id, .. } => {
            push_symbol(out, program, *struct_id);
            push_str_chars(out, " {...}: ");
            push_type(out, &expr.ty);
        },
        HirExprKind::If { .. } => {
            push_str_chars(out, "if ...: ");
            push_type(out, &expr.ty);
        },
        HirExprKind::Match { .. } => {
            push_str_chars(out, "match ...: ");
            push_type(out, &expr.ty);
        },
        HirExprKind::Block(block) => {
            push_str_chars(out, "block -> ");
            push_type(out, &block.ty);
        },
        HirExprKind::Try(inner) => {
            push_expr(out, program, inner);
            push_str_chars(out, "?: ");
            push_type(out, &expr.ty);
        },
    }
    assert(out@ =~= start + expr_text(*program, *expr));
}

/// The expression with its type, as `render` writes it.
pub fn render_expr(program: &HirProgram, expr: &HirExpr) -> (s: String)
    requires
        expr_ok(*program, *expr),
    ensures
        s@ == expr_text(*program, *expr),
{
    let mut out: Vec<char> = Vec::new();
    push_expr(&mut out, program, expr);
    string_from_chars(&out)
}

pub open spec fn stmt_ok(p: HirProgram, s: HirStmt) -> bool {
    match s {
        HirStmt::Let(b) => id_ok(p, b.symbol) && expr_ok(p, b.value),
        HirStmt::Const(b) => id_ok(p, b.symbol) && expr_ok(p, b.value),
        HirStmt::For(f) => id_ok(p, f.binding) && expr_ok(p, f.iterable),
        HirStmt::While(w) => expr_ok(p, w.condition),
        HirStmt::Return(Some(e), _) => expr_ok(p, e),
        HirStmt::Return(None, _) => true,
        HirStmt::Expr(e) => expr_ok(p, e),
    }
}

/// A statement on one line: bindings with their declared type, loops with their header.
pub open spec fn stmt_text(p: HirProgram, s: HirStmt) -> Seq<char> {
    match s {
        HirStmt::Let(b) => "let "@ + symbol_text(p, b.symbol) + ": "@ + type_text(b.ty) + " = "@ + expr_text(p, b.value),
        HirStmt::Const(b) => "const "@ + symbol_text(p, b.symbol) + ": "@ + type_text(b.ty) + " = "@ + expr_text(p, b.value),
        HirStmt::For(f) => "for "@ + symbol_text(p, f.binding) + " in "@ + expr_text(p, f.iterable) + " -> "@ + type_text(
            f.binding_ty,
        ),
        HirStmt::While(w) => "while "@ + expr_text(p, w.condition),
        HirStmt::Return(Some(e), _) => "return "@ + expr_text(p, e),
        HirStmt::Return(None, _) => "return"@,
        HirStmt::Expr(e) => expr_text(p, e),
    }
}

fn push_stmt(out: &mut Vec<char>, program: &HirProgram, statement: &HirStmt)
    requires
        stmt_ok(*program, *statement),
    ensures
        final(out)@ == old(out)@ + stmt_text(*program, *statement),
{
    let ghost start = out@;
    match statement {
        HirStmt::Let(binding) => {
            push_str_chars(out, "let ");
            push_symbol(out, program, binding.symbol);
            push_str_chars(out, ": ");
            push_type(out, &binding.ty);
            push_str_chars(out, " = ");
            push_expr(out, program, &binding.value);
        },
        HirStmt::Const(binding) => {
            push_str_chars(out, "const ");
            push_symbol(out, program, binding.symbol);
            push_str_chars(out, ": ");
            push_type(out, &binding.ty);
            push_str_chars(out, " = ");
            push_expr(out, program, &binding.value);
        },
        HirStmt::For(for_stmt) => {
            push_str_chars(out, "for ");
            push_symbol(out, program, for_stmt.binding);
            push_str_chars(out, " in ");
            push_expr(out, program, &for_stmt.iterable);
            push_str_chars(out, " -> ");
            push_type(out, &for_stmt.binding_ty);
        },
        HirStmt::While(while_stmt) => {
            push_str_chars(out, "while ");
            push_expr(out, program, &while_stmt.condition);
        },
        HirStmt::Return(Some(expr), _) => {
            push_str_chars(out, "return ");
            push_expr(out, program, expr);
        },
        HirStmt::Return(None, _) => push_str_chars(out, "return"),
        HirStmt::Expr(expr) => push_expr(out, program, expr),
    }
    assert(out@ =~= start + stmt_text(*program, *statement));
}

/// The statement on one line, as `render` writes it.
pub fn render_statement(program: &HirProgram, statement: &HirStmt) -> (s: String)
    requires
        stmt_ok(*program, *statement),
    ensures
        s@ == stmt_text(*program, *statement),
{
    let mut out: Vec<char> = Vec::new();
    push_stmt(&mut out, program, statement);
    string_from_chars(&out)
}

/// The name a function is listed under after its receiver: its symbol's name, without a
/// leading `<receiver>.` when it has one.
pub open spec fn base_name(p: HirProgram, f: HirFunction) -> Seq<char> {
    let name = symbol_text(p, f.symbol);
    match f.receiver {
        Some(r) => {
            let prefix = symbol_text(p, r) + "."@;
            if prefix.len() <= name.len() && name.subrange(0, prefix.len() as int) == prefix {
                name.subrange(prefix.len() as int, name.len() as int)
            } else {
                name
            }
        },
        None => name,
    }
}

/// Whether `prefix` starts `text`.
fn starts_with(text: &Vec<char>, prefix: &Vec<char>) -> (r: bool)
    ensures
        r == (prefix@.len() <= text@.len() && text@.subrange(0, prefix@.len() as int) == prefix@),
{
    if prefix.len() > text.len() {
        return false;
    }
    let mut i: usize = 0;
    while i < prefix.len()
        invariant
            prefix@.len() <= text@.len(),
            i <= prefix@.len(),
            forall|k: int| 0 <= k < i ==> text@[k] == prefix@[k],
        decreases prefix@.len() - i,
    {
        if text[i] != prefix[i] {
            assert(text@.subrange(0, prefix@.len() as int)[i as int] != prefix@[i as int]);
            return false;
        }
        i += 1;
    }
    assert(text@.subrange(0, prefix@.len() as int) =~= prefix@);
    true
}

pub open spec fn function_ok(p: HirProgram, f: HirFunction) -> bool {
    &&& id_ok(p, f.symbol)
    &&& (f.receiver matches Some(r) ==> id_ok(p, r))
    &&& (!f.is_declaration && f.body is Some ==> forall|i: int| 0 <= i < f.body->0.statements@.len()
        ==> #[trigger] stmt_ok(p, f.body->0.statements@[i]))
}

fn push_base_name(out: &mut Vec<char>, program: &HirProgram, function: &HirFunction)
    requires
        function_ok(*program, *function),
    ensures
        final(out)@ == old(out)@ + base_name(*program, *function),
{
    let name = crate::text::chars_of(program.symbol_name(function.symbol));
    match function.receiver {
        Some(receiver) => {
            let mut prefix = crate::text::chars_of(program.symbol_name(receiver));
            prefix.push('.');
            proof {
                reveal_strlit(".");
                assert(prefix@ =~= symbol_text(*program, receiver) + "."@);
            }
            if starts_with(&name, &prefix) {
                let mut i: usize = prefix.len();
                let ghost start = out@;
                while i < name.len()
                    invariant
                        prefix@.len() <= i <= name@.len(),
                        out@ == start + name@.subrange(prefix@.len() as int, i as int),
                    decreases name@.len() - i,
                {
                    out.push(name[i]);
                    assert(name@.subrange(prefix@.len() as int, i + 1) =~= name@.subrange(prefix@.len() as int, i as int).push(
                        name@[i as int],
                    ));
                    i += 1;
                }
            } else {
                let mut rest = name;
                out.append(&mut rest);
            }
        },
        None => {
            let mut rest = name;
            out.append(&mut rest);
        },
    }
}

/// The lines of the struct's fields: `  <name>: <type>` each.
pub open spec fn fields_text(p: HirProgram, fields: Seq<HirField>, n: int) -> Seq<char>
    decreases n,
{
    if n <= 0 || n > fields.len() {
        Seq::empty()
    } else {
        fields_text(p, fields, n - 1) + "  "@ + symbol_text(p, fields[n - 1].symbol) + ": "@ + type_text(fields[n - 1].ty)
            + "\n"@
    }
}

/// The lines of the enum's variants: `  <name> = <discriminant>` each.
pub open spec fn variants_text(p: HirProgram, e: HirEnum, n: int) -> Seq<char>
    decreases n,
{
    if n <= 0 || n > e.variants@.len() {
        Seq::empty()
    } else {
        variants_text(p, e, n - 1) + "  "@ + symbol_text(p, e.variants@[n - 1].symbol) + " = "@ + decimal(
            e.variants@[n - 1].discriminant as nat,
        ) + "\n"@
    }
}

/// The lines of the statements: `  <statement>` each.
pub open spec fn stmts_text(p: HirProgram, ss: Seq<HirStmt>, n: int) -> Seq<char>
    decreases n,
{
    if n <= 0 || n > ss.len() {
        Seq::empty()
    } else {
        stmts_text(p, ss, n - 1) + "  "@ + stmt_text(p, ss[n - 1]) + "\n"@
    }
}

pub open spec fn item_ok(p: HirProgram, item: HirItem) -> bool {
    match item {
        HirItem::Import(_) => true,
        HirItem::Struct(s) => id_ok(p, s.symbol) && forall|i: int| 0 <= i < s.fields@.len() ==> #[trigger] id_ok(
            p,
            s.fields@[i].symbol,
        ),
        HirItem::Enum(e) => id_ok(p, e.symbol) && forall|i: int| 0 <= i < e.variants@.len() ==> #[trigger] id_ok(
            p,
            e.variants@[i].symbol,
        ),
        HirItem::Function(f) => function_ok(p, f),
    }
}

/// An item as its lines: the header, then its fields, variants or top-level statements.
pub open spec fn item_text(p: HirProgram, item: HirItem) -> Seq<char> {
    match item {
        HirItem::Import(i) => "import "@ + joined(i.path@.map_values(|s: String| s@), "."@) + "\n"@,
        HirItem::Struct(s) => "struct "@ + symbol_text(p, s.symbol) + " {\n"@ + fields_text(p, s.fields@, s.fields@.len() as int)
            + "}\n"@,
        HirItem::Enum(e) => "enum "@ + symbol_text(p, e.symbol) + " {\n"@ + variants_text(p, e, e.variants@.len() as int)
            + "}\n"@,
        HirItem::Function(f) => (if f.visibility == Visibility::Private { "priv "@ } else { Seq::empty() }) + "fn "@
            + match f.receiver {
            Some(r) => symbol_text(p, r) + "."@,
            None => Seq::empty(),
        } + base_name(p, f) + " -> "@ + type_text(*f.signature.return_type) + "\n"@ + if f.is_declaration {
            "  <declaration>\n"@
        } else {
            match f.body {
                Some(b) => stmts_text(p, b.statements@, b.statements@.len() as int),
                None => Seq::empty(),
            }
        },
    }
}

pub open spec fn items_text(p: HirProgram, n: int) -> Seq<char>
    decreases n,
{
    if n <= 0 || n > p.items@.len() {
        Seq::empty()
    } else {
        items_text(p, n - 1) + item_text(p, p.items@[n - 1])
    }
}

fn push_import(out: &mut Vec<char>, import: &HirImport)
    ensures
        final(out)@ == old(out)@ + joined(import.path@.map_values(|s: String| s@), "."@),
{
    let ghost parts = import.path@.map_values(|s: String| s@);
    let ghost start = out@;
    let mut i: usize = 0;
    while i < import.path.len()
        invariant
            i <= import.path@.len(),
            parts == import.path@.map_values(|s: String| s@),
            out@ == start + joined(parts.take(i as int), "."@),
        decreases import.path@.len() - i,
    {
        if i > 0 {
            push_str_chars(out, ".");
        }
        push_str_chars(out, import.path[i].as_str());
        proof {
            let next = parts.take(i + 1);
            assert(next.drop_last() =~= parts.take(i as int));
            assert(next.last() == import.path@[i as int]@);
            if i == 0 {
                assert(parts.take(0) =~= Seq::<Seq<char>>::empty());
            }
            assert(out@ =~= start + joined(next, "."@));
        }
        i += 1;
    }
    assert(parts.take(i as int) =~= parts);
}

fn push_item(out: &mut Vec<char>, program: &HirProgram, item: &HirItem)
    requires
        item_ok(*program, *item),
    ensures
        final(out)@ == old(out)@ + item_text(*program, *item),
{
    let ghost start = out@;
    match item {
        HirItem::Import(import) => {
            push_str_chars(out, "import ");
            push_import(out, import);
            push_str_chars(out, "\n");
        },
        HirItem::Struct(decl) => {
            push_str_chars(out, "struct ");
            push_symbol(out, program, decl.symbol);
            push_str_chars(out, " {\n");
            let ghost mid = out@;
            let mut i: usize = 0;
            while i < decl.fields.len()
                invariant
                    i <= decl.fields@.len(),
                    item_ok(*program, *item),
                    *item == HirItem::Struct(*decl),
                    out@ == mid + fields_text(*program, decl.fields@, i as int),
                decreases decl.fields@.len() - i,
            {
                assert(id_ok(*program, decl.fields@[i as int].symbol));
                push_str_chars(out, "  ");
                push_symbol(out, program, decl.fields[i].symbol);
                push_str_chars(out, ": ");
                push_type(out, &decl.fields[i].ty);
                push_str_chars(out, "\n");
                assert(out@ =~= mid + fields_text(*program, decl.fields@, i + 1));
                i += 1;
            }
            push_str_chars(out, "}\n");
        },
        HirItem::Enum(decl) => {
            push_str_chars(out, "enum ");
            push_symbol(out, program, decl.symbol);
            push_str_chars(out, " {\n");
            let ghost mid = out@;
            let mut i: usize = 0;
            while i < decl.variants.len()
                invariant
                    i <= decl.variants@.len(),
                    item_ok(*program, *item),
                    *item == HirItem::Enum(*decl),
                    out@ == mid + variants_text(*program, *decl, i as int),
                decreases decl.variants@.len() - i,
            {
                assert(id_ok(*program, decl.variants@[i as int].symbol));
                push_str_chars(out, "  ");
                push_symbol(out, program, decl.variants[i].symbol);
                push_str_chars(out, " = ");
                push_decimal(out, decl.variants[i].discriminant);
                push_str_chars(out, "\n");
                assert(out@ =~= mid + variants_text(*program, *decl, i + 1));
                i += 1;
            }
            push_str_chars(out, "}\n");
        },
        HirItem::Function(function) => {
            if function.visibility == Visibility::Private {
                push_str_chars(out, "priv ");
            }
            push_str_chars(out, "fn ");
            match function.receiver {
                Some(receiver) => {
                    push_symbol(out, program, receiver);
                    push_str_chars(out, ".");
                },
                None => {},
            }
            push_base_name(out, program, function);
            push_str_chars(out, " -> ");
            push_type(out, &function.signature.return_type);
            push_str_chars(out, "\n");
            if function.is_declaration {
                push_str_chars(out, "  <declaration>\n");
            } else {
                match &function.body {
                    Some(body) => {
                        let ghost mid = out@;
                        let mut i: usize = 0;
                        while i < body.statements.len()
                            invariant
                                i <= body.statements@.len(),
                                function_ok(*program, *function),
                                !function.is_declaration,
                                function.body == Some(*body),
                                out@ == mid + stmts_text(*program, body.statements@, i as int),
                            decreases body.statements@.len() - i,
                        {
                            assert(stmt_ok(*program, body.statements@[i as int]));
                            push_str_chars(out, "  ");
                            push_stmt(out, program, &body.statements[i]);
                            push_str_chars(out, "\n");
                            assert(out@ =~= mid + stmts_text(*program, body.statements@, i + 1));
                            i += 1;
                        }
                    },
                    None => {},
                }
            }
        },
    }
    assert(out@ =~= start + item_text(*program, *item));
}

/// The whole program as text, item by item.
pub fn render(program: &HirProgram) -> (s: String)
    requires
        forall|i: int| 0 <= i < program.items@.len() ==> #[trigger] item_ok(*program, program.items@[i]),
    ensures
        s@ == items_text(*program, program.items@.len() as int),
{
    let mut out: Vec<char> = Vec::new();
    let mut i: usize = 0;
    while i < program.items.len()
        invariant
            i <= program.items@.len(),
            forall|k: int| 0 <= k < program.items@.len() ==> #[trigger] item_ok(*program, program.items@[k]),
            out@ == items_text(*program, i as int),
        decreases program.items@.len() - i,
    {
        push_item(&mut out, program, &program.items[i]);
        i += 1;
    }
    string_from_chars(&out)
}

fn id_check(program: &HirProgram, id: HirSymbolId) -> (r: bool)
    ensures
        r == id_ok(*program, id),
{
    id.0 < program.symbols.len()
}

/// Whether every symbol the rendering of the expression names is a symbol of the program.
fn expr_check(program: &HirProgram, e: &HirExpr) -> (r: bool)
    ensures
        r == expr_ok(*program, *e),
    decreases *e, 0nat,
{
    match &e.kind {
        HirExprKind::EnumVariant { enum_id, variant_id, .. } => id_check(program, *enum_id) && id_check(program, *variant_id),
        HirExprKind::Path(s) => id_check(program, *s),
        HirExprKind::Array(items) => exprs_check(program, items),
        HirExprKind::RepeatArray { value, .. } => expr_check(program, value),
        HirExprKind::Cast { expr } => expr_check(program, expr),
        HirExprKind::Unary { expr, .. } => expr_check(program, expr),
        HirExprKind::Binary { left, right, .. } => expr_check(program, left) && expr_check(program, right),
        HirExprKind::Call { callee, args } => expr_check(program, callee) && exprs_check(program, args),
        HirExprKind::Field { base, field } => expr_check(program, base) && id_check(program, *field),
        HirExprKind::Index { target, index } => expr_check(program, target) && expr_check(program, index),
        HirExprKind::StructLiteral { struct_id, .. } => id_check(program, *struct_id),
        HirExprKind::Try(inner) => expr_check(program, inner),
        _ => true,
    }
}

fn exprs_check(program: &HirProgram, items: &Vec<HirExpr>) -> (r: bool)
    ensures
        r == exprs_ok(*program, items@, items@.len() as int),
    decreases *items, 1nat,
{
    let mut i: usize = 0;
    while i < items.len()
        invariant
            i <= items@.len(),
            exprs_ok(*program, items@, i as int),
        decreases items@.len() - i,
    {
        proof {
            assert(decreases_to!(*items => items@));
            assert(decreases_to!(items@ => items@[i as int]));
        }
        if !expr_check(program, &items[i]) {
            proof {
                if exprs_ok(*program, items@, items@.len() as int) {
                    lemma_exprs_ok_at_any(*program, items@, items@.len() as int, i as int);
                }
            }
            return false;
        }
        i += 1;
    }
    true
}

proof fn lemma_exprs_ok_at_any(p: HirProgram, items: Seq<HirExpr>, n: int, i: int)
    requires
        0 <= i < n <= items.len(),
        exprs_ok(p, items, n),
    ensures
        expr_ok(p, items[i]),
    decreases n,
{
    if i < n - 1 {
        lemma_exprs_ok_at_any(p, items, n - 1, i);
    }
}

fn stmt_check(program: &HirProgram, s: &HirStmt) -> (r: bool)
    ensures
        r == stmt_ok(*program, *s),
{
    match s {
        HirStmt::Let(b) => id_check(program, b.symbol) && expr_check(program, &b.value),
        HirStmt::Const(b) => id_check(program, b.symbol) && expr_check(program, &b.value),
        HirStmt::For(f) => id_check(program, f.binding) && expr_check(program, &f.iterable),
        HirStmt::While(w) => expr_check(program, &w.condition),
        HirStmt::Return(Some(e), _) => expr_check(program, e),
        HirStmt::Return(None, _) => true,
        HirStmt::Expr(e) => expr_check(program, e),
    }
}

/// Whether every symbol the rendering of the program names is one of its symbols, as
/// rendering asks.
pub fn renderable(program: &HirProgram) -> (r: bool)
    ensures
        r == forall|i: int| 0 <= i < program.items@.len() ==> #[trigger] item_ok(*program, program.items@[i]),
{
    let mut i: usize = 0;
    while i < program.items.len()
        invariant
            i <= program.items@.len(),
            forall|k: int| 0 <= k < i ==> #[trigger] item_ok(*program, program.items@[k]),
        decreases program.items@.len() - i,
    {
        let ok = match &program.items[i] {
            HirItem::Import(_) => true,
            HirItem::Struct(st) => {
                let mut good = id_check(program, st.symbol);
                let mut j: usize = 0;
                while j < st.fields.len()
                    invariant
                        j <= st.fields@.len(),
                        good == (id_ok(*program, st.symbol) && forall|k: int| 0 <= k < j ==> #[trigger] id_ok(
                            *program,
                            st.fields@[k].symbol,
                        )),
                    decreases st.fields@.len() - j,
                {
                    good = good && id_check(program, st.fields[j].symbol);
                    j += 1;
                }
                proof {
                    assert(good == item_ok(*program, program.items@[i as int]));
                }
                good
            },
            HirItem::Enum(en) => {
                let mut good = id_check(program, en.symbol);
                let mut j: usize = 0;
                while j < en.variants.len()
                    invariant
                        j <= en.variants@.len(),
                        good == (id_ok(*program, en.symbol) && forall|k: int| 0 <= k < j ==> #[trigger] id_ok(
                            *program,
                            en.variants@[k].symbol,
                        )),
                    decreases en.variants@.len() - j,
                {
                    good = good && id_check(program, en.variants[j].symbol);
                    j += 1;
                }
                proof {
                    assert(good == item_ok(*program, program.items@[i as int]));
                }
                good
            },
            HirItem::Function(f) => {
                let mut good = id_check(program, f.symbol) && match f.receiver {
                    Some(r) => id_check(program, r),
                    None => true,
                };
                if !f.is_declaration {
                    match &f.body {
                        Some(body) => {
                            let mut j: usize = 0;
                            while j < body.statements.len()
                                invariant
                                    j <= body.statements@.len(),
                                    good == (id_ok(*program, f.symbol) && (f.receiver matches Some(r) ==> id_ok(*program, r))
                                        && forall|k: int| 0 <= k < j ==> #[trigger] stmt_ok(*program, body.statements@[k])),
                                decreases body.statements@.len() - j,
                            {
                                good = good && stmt_check(program, &body.statements[j]);
                                j += 1;
                            }
                        },
                        None => {},
                    }
                }
                proof {
                    assert(good == function_ok(*program, *f));
                    assert(good == item_ok(*program, program.items@[i as int]));
                }
                good
            },
        };
        if !ok {
            return false;
        }
        i += 1;
    }
    true
}

} // verus!
