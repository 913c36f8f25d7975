//! The types the checker gives to values and functions, and how they are written.

use vstd::prelude::*;
use crate::hir::display::joined;
use crate::text::{decimal, decimal_chars, push_str_chars, str_eq, string_from_chars};

verus! {

/// The name a function is declared under: its receiver type, if it is a method, and its name.
#[derive(Debug, Clone, PartialEq, Eq)]
pub struct FunctionKey {
    pub receiver: Option<String>,
    pub name: String,
}

/// The parameter types and the return type of a function.
#[derive(Debug, PartialEq, Eq)]
pub struct FunctionSignature {
    pub key: FunctionKey,
    pub params: Vec<Type>,
    pub return_type: Box<Type>,
}

#[derive(Debug, PartialEq, Eq)]
pub enum Type {
    Unknown,
    Unit,
    Int,
    Byte,
    Float,
    String,
    Bool,
    Error,
    Struct(String),
    Enum(String),
    Array(Box<Type>, usize),
    Result(Box<Type>, Box<Type>),
    Range(Box<Type>),
    Function(FunctionSignature),
}

/// How a type is written: its keyword, the name of a struct or enum, or its parts.
pub open spec fn type_text(t: Type) -> Seq<char>
    decreases t, 0nat,
{
    match t {
        Type::Unknown => "_"@,
        Type::Unit => "()"@,
        Type::Int => "int"@,
        Type::Byte => "byte"@,
        Type::Float => "float"@,
        Type::String => "string"@,
        Type::Bool => "bool"@,
        Type::Error => "Error"@,
        Type::Struct(name) => name@,
        Type::Enum(name) => name@,
        Type::Array(element, length) => "["@ + type_text(*element) + "; "@ + decimal(length as nat) + "]"@,
        Type::Result(ok, err) => "Result<"@ + type_text(*ok) + ", "@ + type_text(*err) + ">"@,
        Type::Range(inner) => "Range<"@ + type_text(*inner) + ">"@,
        Type::Function(signature) => signature_text(signature),
    }
}

/// The texts of the first `n` parameter types.
pub open spec fn params_texts(params: Seq<Type>, n: int) -> Seq<Seq<char>>
    decreases params, 1nat, n,
{
    if n <= 0 || n > params.len() {
        Seq::empty()
    } else {
        params_texts(params, n - 1).push(type_text(params[n - 1]))
    }
}

/// A signature written as `fn(<params>) -> <return type>`, the parameters separated by `, `.
pub open spec fn signature_text(s: FunctionSignature) -> Seq<char>
    decreases s, 0nat,
{
    "fn("@ + joined(params_texts(s.params@, s.params@.len() as int), ", "@) + ") -> "@ + type_text(
        *s.return_type,
    )
}

/// Appends `sep` unless `out` is at the start of a list.
fn push_separator(out: &mut Vec<char>, first: bool, sep: &str)
    ensures
        final(out)@ == old(out)@ + if first { Seq::<char>::empty() } else { sep@ },
{
    if !first {
        push_str_chars(out, sep);
    } else {
        assert(out@ =~= old(out)@ + Seq::<char>::empty());
    }
}

proof fn lemma_joined_push(parts: Seq<Seq<char>>, next: Seq<char>, sep: Seq<char>)
    ensures
        joined(parts.push(next), sep) == joined(parts, sep) + (if parts.len() == 0 {
            Seq::<char>::empty()
        } else {
            sep
        }) + next,
{
    let p = parts.push(next);
    assert(p.drop_last() =~= parts);
    if parts.len() == 0 {
        assert(joined(p, sep) == p[0]);
        assert(joined(parts, sep) + Seq::<char>::empty() + next =~= next);
    }
}

fn push_type_text(out: &mut Vec<char>, t: &Type)
    ensures
        final(out)@ == old(out)@ + type_text(*t),
    decreases *t, 0nat,
{
    match t {
        Type::Unknown => push_str_chars(out, "_"),
        Type::Unit => push_str_chars(out, "()"),
        Type::Int => push_str_chars(out, "int"),
        Type::Byte => push_str_chars(out, "byte"),
        Type::Float => push_str_chars(out, "float"),
        Type::String => push_str_chars(out, "string"),
        Type::Bool => push_str_chars(out, "bool"),
        Type::Error => push_str_chars(out, "Error"),
        Type::Struct(name) => push_str_chars(out, name.as_str()),
        Type::Enum(name) => push_str_chars(out, name.as_str()),
        Type::Array(element, length) => {
            push_str_chars(out, "[");
            push_type_text(out, element);
            push_str_chars(out, "; ");
            let mut digits = decimal_chars(*length as u64);
            out.append(&mut digits);
            push_str_chars(out, "]");
            assert(out@ =~= old(out)@ + type_text(*t));
        },
        Type::Result(ok, err) => {
            push_str_chars(out, "Result<");
            push_type_text(out, ok);
            push_str_chars(out, ", ");
            push_type_text(out, err);
            push_str_chars(out, ">");
            assert(out@ =~= old(out)@ + type_text(*t));
        },
        Type::Range(inner) => {
            push_str_chars(out, "Range<");
            push_type_text(out, inner);
            push_str_chars(out, ">");
            assert(out@ =~= old(out)@ + type_text(*t));
        },
        Type::Function(signature) => push_signature_text(out, signature),
    }
}

fn push_signature_text(out: &mut Vec<char>, s: &FunctionSignature)
    ensures
        final(out)@ == old(out)@ + signature_text(*s),
    decreases *s, 0nat,
{
    let ghost ps = s.params@;
    push_str_chars(out, "fn(");
    let ghost head = out@;
    let mut i: usize = 0;
    while i < s.params.len()
        invariant
            ps == s.params@,
            i <= ps.len(),
            out@ == head + joined(params_texts(ps, i as int), ", "@),
        decreases ps.len() - i,
    {
        proof {
            lemma_joined_push(params_texts(ps, i as int), type_text(ps[i as int]), ", "@);
            assert(params_texts(ps, i as int).len() == i) by {
                lemma_params_texts_len(ps, i as int);
            }
        }
        push_separator(out, i == 0, ", ");
        assert(decreases_to!(*s => ps[i as int])) by {
            assert(decreases_to!(*s => s.params));
            assert(decreases_to!(s.params => s.params@));
            assert(decreases_to!(s.params@ => s.params@[i as int]));
        }
        push_type_text(out, &s.params[i]);
        assert(params_texts(ps, i + 1) == params_texts(ps, i as int).push(type_text(ps[i as int])));
        i += 1;
    }
    push_str_chars(out, ") -> ");
    push_type_text(out, &s.return_type);
    assert(out@ =~= old(out)@ + signature_text(*s));
}

proof fn lemma_params_texts_len(params: Seq<Type>, n: int)
    requires
        0 <= n <= params.len(),
    ensures
        params_texts(params, n).len() == n,
    decreases n,
{
    if n > 0 {
        lemma_params_texts_len(params, n - 1);
    }
}

/// Whether two optional names hold the same text.
pub open spec fn same_name(a: Option<String>, b: Option<String>) -> bool {
    match (a, b) {
        (Some(x), Some(y)) => x@ == y@,
        (None, None) => true,
        _ => false,
    }
}

/// Whether two types are the same: the same variant, the same names and the same parts.
pub open spec fn same_type(a: Type, b: Type) -> bool
    decreases a, 0nat,
{
    match (a, b) {
        (Type::Unknown, Type::Unknown) => true,
        (Type::Unit, Type::Unit) => true,
        (Type::Int, Type::Int) => true,
        (Type::Byte, Type::Byte) => true,
        (Type::Float, Type::Float) => true,
        (Type::String, Type::String) => true,
        (Type::Bool, Type::Bool) => true,
        (Type::Error, Type::Error) => true,
        (Type::Struct(x), Type::Struct(y)) => x@ == y@,
        (Type::Enum(x), Type::Enum(y)) => x@ == y@,
        (Type::Array(x, n), Type::Array(y, m)) => n == m && same_type(*x, *y),
        (Type::Result(x1, x2), Type::Result(y1, y2)) => same_type(*x1, *y1) && same_type(*x2, *y2),
        (Type::Range(x), Type::Range(y)) => same_type(*x, *y),
        (Type::Function(x), Type::Function(y)) => same_signature(x, y),
        _ => false,
    }
}

/// Whether the first `n` types of both lists are pairwise the same.
pub open spec fn same_types(xs: Seq<Type>, ys: Seq<Type>, n: int) -> bool
    decreases xs, 1nat, n,
{
    if n <= 0 || n > xs.len() || n > ys.len() {
        n <= 0
    } else {
        same_types(xs, ys, n - 1) && same_type(xs[n - 1], ys[n - 1])
    }
}

pub open spec fn same_signature(a: FunctionSignature, b: FunctionSignature) -> bool
    decreases a, 0nat,
{
    &&& same_name(a.key.receiver, b.key.receiver)
    &&& a.key.name@ == b.key.name@
    &&& a.params@.len() == b.params@.len()
    &&& same_types(a.params@, b.params@, a.params@.len() as int)
    &&& same_type(*a.return_type, *b.return_type)
}

fn copy_name(name: &Option<String>) -> (r: Option<String>)
    ensures
        same_name(r, *name),
{
    match name {
        Some(n) => Some(n.clone()),
        None => None,
    }
}

impl Type {
    /// A copy of the type.
    pub fn duplicate(&self) -> (r: Type)
        ensures
            same_type(r, *self),
        decreases *self, 0nat,
    {
        match self {
            Type::Unknown => Type::Unknown,
            Type::Unit => Type::Unit,
            Type::Int => Type::Int,
            Type::Byte => Type::Byte,
            Type::Float => Type::Float,
            Type::String => Type::String,
            Type::Bool => Type::Bool,
            Type::Error => Type::Error,
            Type::Struct(name) => Type::Struct(name.clone()),
            Type::Enum(name) => Type::Enum(name.clone()),
            Type::Array(element, length) => Type::Array(Box::new(element.duplicate()), *length),
            Type::Result(ok, err) => Type::Result(Box::new(ok.duplicate()), Box::new(err.duplicate())),
            Type::Range(inner) => Type::Range(Box::new(inner.duplicate())),
            Type::Function(signature) => Type::Function(signature.duplicate()),
        }
    }
}

impl FunctionSignature {
    /// A copy of the signature.
    pub fn duplicate(&self) -> (r: FunctionSignature)
        ensures
            same_signature(r, *self),
        decreases *self, 0nat,
    {
        let ghost ps = self.params@;
        let mut params: Vec<Type> = Vec::new();
        let mut i: usize = 0;
        while i < self.params.len()
            invariant
                ps == self.params@,
                i <= ps.len(),
                params@.len() == i,
                same_types(params@, ps, i as int),
            decreases ps.len() - i,
        {
            assert(decreases_to!(*self => ps[i as int])) by {
                assert(decreases_to!(*self => self.params));
                assert(decreases_to!(self.params => self.params@));
                assert(decreases_to!(self.params@ => self.params@[i as int]));
            }
            let t = self.params[i].duplicate();
            let ghost before = params@;
            params.push(t);
            proof {
                assert(params@.take(i as int) =~= before);
                lemma_same_types_push(params@, ps, i as int);
            }
            i += 1;
        }
        FunctionSignature {
            key: FunctionKey { receiver: copy_name(&self.key.receiver), name: self.key.name.clone() },
            params,
            return_type: Box::new(self.return_type.duplicate()),
        }
    }
}

proof fn lemma_same_types_push(xs: Seq<Type>, ys: Seq<Type>, i: int)
    requires
        0 <= i < xs.len(),
        i < ys.len(),
        same_types(xs.take(i), ys, i),
        same_type(xs[i], ys[i]),
    ensures
        same_types(xs, ys, i + 1),
{
    lemma_same_types_prefix(xs, xs.take(i), ys, i);
}

proof fn lemma_same_types_prefix(xs: Seq<Type>, prefix: Seq<Type>, ys: Seq<Type>, n: int)
    requires
        0 <= n <= prefix.len() <= xs.len(),
        forall|k: int| 0 <= k < prefix.len() ==> prefix[k] == xs[k],
        same_types(prefix, ys, n),
    ensures
        same_types(xs, ys, n),
    decreases n,
{
    if n > 0 {
        lemma_same_types_prefix(xs, prefix, ys, n - 1);
    }
}

impl Type {
    /// The type as it is written in source and in messages.
    pub fn display_name(&self) -> (s: String)
        ensures
            s@ == type_text(*self),
    {
        let mut out: Vec<char> = Vec::new();
        push_type_text(&mut out, self);
        assert(out@ =~= type_text(*self));
        string_from_chars(&out)
    }
}

impl FunctionSignature {
    /// The signature as `fn(<params>) -> <return type>`.
    pub fn display_name(&self) -> (s: String)
        ensures
            s@ == signature_text(*self),
    {
        let mut out: Vec<char> = Vec::new();
        push_signature_text(&mut out, self);
        assert(out@ =~= signature_text(*self));
        string_from_chars(&out)
    }
}

impl Type {
    /// Whether the two types are the same, as `same_type` says.
    pub fn same_as(&self, other: &Type) -> (r: bool)
        ensures
            r == same_type(*self, *other),
        decreases *self, 0nat,
    {
        match (self, other) {
            (Type::Unknown, Type::Unknown) => true,
            (Type::Unit, Type::Unit) => true,
            (Type::Int, Type::Int) => true,
            (Type::Byte, Type::Byte) => true,
            (Type::Float, Type::Float) => true,
            (Type::String, Type::String) => true,
            (Type::Bool, Type::Bool) => true,
            (Type::Error, Type::Error) => true,
            (Type::Struct(x), Type::Struct(y)) => str_eq(x.as_str(), y.as_str()),
            (Type::Enum(x), Type::Enum(y)) => str_eq(x.as_str(), y.as_str()),
            (Type::Array(x, n), Type::Array(y, m)) => *n == *m && x.same_as(y),
            (Type::Result(x1, x2), Type::Result(y1, y2)) => x1.same_as(y1) && x2.same_as(y2),
            (Type::Range(x), Type::Range(y)) => x.same_as(y),
            (Type::Function(x), Type::Function(y)) => x.same_as(y),
            _ => false,
        }
    }
}

impl FunctionSignature {
    /// Whether the two signatures are the same, as `same_signature` says.
    pub fn same_as(&self, other: &FunctionSignature) -> (r: bool)
        ensures
            r == same_signature(*self, *other),
        decreases *self, 0nat,
    {
        let receivers = match (&self.key.receiver, &other.key.receiver) {
            (Some(x), Some(y)) => str_eq(x.as_str(), y.as_str()),
            (None, None) => true,
            _ => false,
        };
        if !receivers || !str_eq(self.key.name.as_str(), other.key.name.as_str()) {
            return false;
        }
        if self.params.len() != other.params.len() {
            return false;
        }
        let ghost ps = self.params@;
        let ghost qs = other.params@;
        let mut i: usize = 0;
        while i < self.params.len()
            invariant
                ps == self.params@,
                qs == other.params@,
                ps.len() == qs.len(),
                i <= ps.len(),
                same_types(ps, qs, i as int),
            decreases ps.len() - i,
        {
            assert(decreases_to!(*self => ps[i as int])) by {
                assert(decreases_to!(*self => self.params));
                assert(decreases_to!(self.params => self.params@));
                assert(decreases_to!(self.params@ => self.params@[i as int]));
            }
            if !self.params[i].same_as(&other.params[i]) {
                proof {
                    if same_types(ps, qs, ps.len() as int) {
                        lemma_same_types_at(ps, qs, ps.len() as int, i as int);
                    }
                }
                return false;
            }
            i += 1;
        }
        self.return_type.same_as(&other.return_type)
    }
}

proof fn lemma_same_types_at(xs: Seq<Type>, ys: Seq<Type>, n: int, i: int)
    requires
        0 <= i < n <= xs.len(),
        n <= ys.len(),
        same_types(xs, ys, n),
    ensures
        same_type(xs[i], ys[i]),
    decreases n,
{
    if i < n - 1 {
        lemma_same_types_at(xs, ys, n - 1, i);
    }
}

/// Being the same type is transitive.
pub proof fn lemma_same_type_trans(a: Type, b: Type, c: Type)
    requires
        same_type(a, b),
        same_type(b, c),
    ensures
        same_type(a, c),
    decreases a, 0nat,
{
    match (a, b, c) {
        (Type::Array(x, _), Type::Array(y, _), Type::Array(z, _)) => lemma_same_type_trans(*x, *y, *z),
        (Type::Result(x1, x2), Type::Result(y1, y2), Type::Result(z1, z2)) => {
            lemma_same_type_trans(*x1, *y1, *z1);
            lemma_same_type_trans(*x2, *y2, *z2);
        },
        (Type::Range(x), Type::Range(y), Type::Range(z)) => lemma_same_type_trans(*x, *y, *z),
        (Type::Function(x), Type::Function(y), Type::Function(z)) => lemma_same_signature_trans(x, y, z),
        _ => {},
    }
}

pub proof fn lemma_same_signature_trans(a: FunctionSignature, b: FunctionSignature, c: FunctionSignature)
    requires
        same_signature(a, b),
        same_signature(b, c),
    ensures
        same_signature(a, c),
    decreases a, 0nat,
{
    lemma_same_types_trans(a.params@, b.params@, c.params@, a.params@.len() as int);
    lemma_same_type_trans(*a.return_type, *b.return_type, *c.return_type);
}

proof fn lemma_same_types_trans(xs: Seq<Type>, ys: Seq<Type>, zs: Seq<Type>, n: int)
    requires
        0 <= n <= xs.len(),
        n <= ys.len(),
        n <= zs.len(),
        same_types(xs, ys, n),
        same_types(ys, zs, n),
    ensures
        same_types(xs, zs, n),
    decreases xs, 1nat, n,
{
    if n > 0 {
        lemma_same_types_trans(xs, ys, zs, n - 1);
        lemma_same_type_trans(xs[n - 1], ys[n - 1], zs[n - 1]);
    }
}

} // verus!
