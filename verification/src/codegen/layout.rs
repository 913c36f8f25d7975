//! Memory layouts for native code: the size of each type in a stack frame, and the field
//! offsets of structs, inferred from the struct literals the program builds.

use vstd::prelude::*;
use super::CodegenError;
use crate::mir::nodes::{MirFunction, MirProgram, Operand, Place, ProjectionElem, Rvalue, StatementKind};
use crate::text::{chars_of, push_str_chars, str_eq};
use crate::types::{same_type, Type};

verus! {

#[derive(Debug)]
pub struct StructFieldLayout {
    pub name: String,
    pub ty: Type,
    pub offset: usize,
}

#[derive(Debug)]
pub struct StructLayout {
    pub fields: Vec<StructFieldLayout>,
    pub size: usize,
}

/// The layouts of the structs a program uses, each under its name.
#[derive(Debug)]
pub struct TypeLayouts {
    pub structs: Vec<(String, StructLayout)>,
}

/// The index of the first layout with the name.
pub open spec fn find_struct(l: Seq<(String, StructLayout)>, name: Seq<char>) -> Option<int>
    decreases l.len(),
{
    if l.len() == 0 {
        None
    } else if l[0].0@ == name {
        Some(0)
    } else {
        match find_struct(l.drop_first(), name) {
            Some(i) => Some(i + 1),
            None => None,
        }
    }
}

/// A scalar: a value held in one eight-byte slot.
pub open spec fn is_scalar(t: Type) -> bool {
    match t {
        Type::Int | Type::Byte | Type::Bool | Type::String | Type::Enum(_) | Type::Unit => true,
        _ => false,
    }
}

/// The size of an array element of the type, where arrays of it are supported.
pub open spec fn element_size(t: Type) -> Option<nat> {
    match t {
        Type::Byte => Some(1),
        Type::Int | Type::Bool | Type::String | Type::Enum(_) => Some(8),
        _ => None,
    }
}

/// The size a value of the type takes in a frame, where the type is supported: arrays of
/// supported elements, structs with a layout, and scalars.
pub open spec fn type_size(l: Seq<(String, StructLayout)>, t: Type) -> Option<nat> {
    match t {
        Type::Array(element, length) => match element_size(*element) {
            Some(s) => Some(s * (length as nat)),
            None => None,
        },
        Type::Struct(name) => match find_struct(l, name@) {
            Some(i) => Some(l[i].1.size as nat),
            None => None,
        },
        _ => if is_scalar(t) { Some(8) } else { None },
    }
}

/// The type is supported and its size fits in a `usize`.
pub open spec fn sized(l: Seq<(String, StructLayout)>, t: Type) -> bool {
    type_size(l, t) is Some && type_size(l, t)->0 <= usize::MAX
}

/// Each field starts where the one before it ends, the first at zero, and the struct is as
/// large as its fields together.
pub open spec fn offsets_follow_sizes(l: Seq<(String, StructLayout)>, s: StructLayout) -> bool {
    let f = s.fields@;
    &&& forall|i: int| 0 <= i < f.len() ==> #[trigger] type_size(l, f[i].ty) is Some
    &&& (f.len() == 0 ==> s.size == 0)
    &&& (f.len() > 0 ==> f[0].offset == 0)
    &&& forall|i: int| 0 <= i < f.len() ==> #[trigger] f[i].offset + type_size(l, f[i].ty)->0 == if i + 1 < f.len() {
        f[i + 1].offset as int
    } else {
        s.size as int
    }
}

/// Every layout follows its field sizes, and no two layouts share a name.
pub open spec fn layouts_consistent(l: Seq<(String, StructLayout)>) -> bool {
    &&& forall|k: int| 0 <= k < l.len() ==> #[trigger] offsets_follow_sizes(l, l[k].1)
    &&& forall|j: int, k: int| 0 <= j < k < l.len() ==> l[j].0@ != l[k].0@
}

proof fn lemma_find_struct_bound(l: Seq<(String, StructLayout)>, name: Seq<char>)
    ensures
        find_struct(l, name) matches Some(i) ==> 0 <= i < l.len() && l[i].0@ == name,
        find_struct(l, name) is None ==> forall|i: int| 0 <= i < l.len() ==> l[i].0@ != name,
    decreases l.len(),
{
    if l.len() > 0 {
        lemma_find_struct_bound(l.drop_first(), name);
        if l[0].0@ != name {
            assert forall|i: int| 0 < i < l.len() implies l[i].0@ == l.drop_first()[i - 1].0@ by {}
        }
    }
}

proof fn lemma_find_struct_push(l: Seq<(String, StructLayout)>, x: (String, StructLayout), name: Seq<char>)
    requires
        find_struct(l, name) is Some,
    ensures
        find_struct(l.push(x), name) == find_struct(l, name),
    decreases l.len(),
{
    if l[0].0@ != name {
        assert(l.push(x).drop_first() =~= l.drop_first().push(x));
        lemma_find_struct_push(l.drop_first(), x, name);
    }
}

proof fn lemma_type_size_push(l: Seq<(String, StructLayout)>, x: (String, StructLayout), t: Type)
    requires
        type_size(l, t) is Some,
    ensures
        type_size(l.push(x), t) == type_size(l, t),
{
    match t {
        Type::Struct(name) => {
            lemma_find_struct_push(l, x, name@);
            lemma_find_struct_bound(l, name@);
        },
        _ => {},
    }
}

proof fn lemma_consistent_push(l: Seq<(String, StructLayout)>, x: (String, StructLayout))
    requires
        layouts_consistent(l),
        offsets_follow_sizes(l, x.1),
        forall|j: int| 0 <= j < l.len() ==> l[j].0@ != x.0@,
    ensures
        layouts_consistent(l.push(x)),
{
    let m = l.push(x);
    assert forall|k: int| 0 <= k < m.len() implies #[trigger] offsets_follow_sizes(m, m[k].1) by {
        let s = m[k].1;
        assert(offsets_follow_sizes(l, s));
        assert forall|i: int| 0 <= i < s.fields@.len() implies #[trigger] type_size(m, s.fields@[i].ty) == type_size(
            l,
            s.fields@[i].ty,
        ) by {
            lemma_type_size_push(l, x, s.fields@[i].ty);
        }
        assert forall|i: int| 0 <= i < s.fields@.len() implies #[trigger] type_size(m, s.fields@[i].ty) is Some by {
            assert(type_size(m, s.fields@[i].ty) == type_size(l, s.fields@[i].ty));
        }
        assert forall|i: int| 0 <= i < s.fields@.len() implies #[trigger] s.fields@[i].offset + type_size(
            m,
            s.fields@[i].ty,
        )->0 == if i + 1 < s.fields@.len() {
            s.fields@[i + 1].offset as int
        } else {
            s.size as int
        } by {
            assert(type_size(m, s.fields@[i].ty) == type_size(l, s.fields@[i].ty));
        }
    }
}

/// The index of the first layout with the name.
fn find_resolved(resolved: &Vec<(String, StructLayout)>, name: &str) -> (r: Option<usize>)
    ensures
        r matches Some(i) ==> find_struct(resolved@, name@) == Some(i as int),
        r is None ==> find_struct(resolved@, name@) is None,
{
    let mut i: usize = 0;
    assert(resolved@.skip(0) =~= resolved@);
    while i < resolved.len()
        invariant
            i <= resolved@.len(),
            find_struct(resolved@, name@) == match find_struct(resolved@.skip(i as int), name@) {
                Some(k) => Some(k + i),
                None => None,
            },
        decreases resolved@.len() - i,
    {
        proof {
            assert(resolved@.skip(i as int).drop_first() =~= resolved@.skip(i + 1));
        }
        if str_eq(resolved[i].0.as_str(), name) {
            return Some(i);
        }
        i += 1;
    }
    None
}

impl TypeLayouts {
    /// The layout of the struct with the name.
    pub fn struct_layout(&self, name: &str) -> (r: Option<&StructLayout>)
        ensures
            match find_struct(self.structs@, name@) {
                Some(i) => r == Some(&self.structs@[i].1),
                None => r is None,
            },
    {
        let mut i: usize = 0;
        assert(self.structs@.skip(0) =~= self.structs@);
        while i < self.structs.len()
            invariant
                i <= self.structs@.len(),
                find_struct(self.structs@, name@) == match find_struct(self.structs@.skip(i as int), name@) {
                    Some(k) => Some(k + i),
                    None => None,
                },
            decreases self.structs@.len() - i,
        {
            proof {
                assert(self.structs@.skip(i as int).drop_first() =~= self.structs@.skip(i + 1));
            }
            if str_eq(self.structs[i].0.as_str(), name) {
                return Some(&self.structs[i].1);
            }
            i += 1;
        }
        None
    }

    /// The layout of the named field of the named struct: the first field of that name.
    pub fn field_layout(&self, struct_name: &str, field: &str) -> (r: Option<&StructFieldLayout>)
        ensures
            match find_struct(self.structs@, struct_name@) {
                Some(i) => match r {
                    Some(f) => exists|k: int| 0 <= k < self.structs@[i].1.fields@.len() && self.structs@[i].1.fields@[k]
                        == *f && f.name@ == field@,
                    None => forall|k: int| 0 <= k < self.structs@[i].1.fields@.len()
                        ==> self.structs@[i].1.fields@[k].name@ != field@,
                },
                None => r is None,
            },
    {
        match self.struct_layout(struct_name) {
            Some(layout) => {
                let mut k: usize = 0;
                while k < layout.fields.len()
                    invariant
                        k <= layout.fields@.len(),
                        find_struct(self.structs@, struct_name@) is Some,
                        *layout == self.structs@[find_struct(self.structs@, struct_name@)->0].1,
                        forall|j: int| 0 <= j < k ==> layout.fields@[j].name@ != field@,
                    decreases layout.fields@.len() - k,
                {
                    if str_eq(layout.fields[k].name.as_str(), field) {
                        proof {
                            let i = find_struct(self.structs@, struct_name@)->0;
                            assert(self.structs@[i].1.fields@[k as int] == layout.fields@[k as int]);
                        }
                        return Some(&layout.fields[k]);
                    }
                    k += 1;
                }
                None
            },
            None => None,
        }
    }
}

fn type_error(prefix: &str, ty: &Type, suffix: &str) -> (e: CodegenError)
    ensures
        e.message@ == prefix@ + crate::types::type_text(*ty) + suffix@,
{
    let mut text = chars_of(prefix);
    let name = ty.display_name();
    push_str_chars(&mut text, name.as_str());
    push_str_chars(&mut text, suffix);
    CodegenError::from_chars(&text)
}

fn name_error(prefix: &str, name: &str, suffix: &str) -> (e: CodegenError)
    ensures
        e.message@ == prefix@ + name@ + suffix@,
{
    let mut text = chars_of(prefix);
    push_str_chars(&mut text, name);
    push_str_chars(&mut text, suffix);
    CodegenError::from_chars(&text)
}

/// The size of an array element of the type, where arrays of it are supported.
pub fn supported_array_element_size(ty: &Type) -> (r: Option<usize>)
    ensures
        match element_size(*ty) {
            Some(s) => r == Some(s as usize),
            None => r is None,
        },
{
    match ty {
        Type::Byte => Some(1),
        Type::Int | Type::Bool | Type::String | Type::Enum(_) => Some(8),
        _ => None,
    }
}

pub fn is_supported_scalar_type(ty: &Type) -> (r: bool)
    ensures
        r == is_scalar(*ty),
{
    match ty {
        Type::Int | Type::Byte | Type::Bool | Type::String | Type::Enum(_) | Type::Unit => true,
        _ => false,
    }
}

/// The size of the type in a frame; an error for a type native code does not support, or
/// for an array too large to address.
pub fn type_stack_size(ty: &Type, layouts: &TypeLayouts) -> (r: Result<usize, CodegenError>)
    ensures
        match r {
            Ok(n) => type_size(layouts.structs@, *ty) == Some(n as nat),
            Err(_) => type_size(layouts.structs@, *ty) is None || type_size(layouts.structs@, *ty)->0 > usize::MAX,
        },
{
    match ty {
        Type::Array(element, length) => match supported_array_element_size(element) {
            Some(size) => match size.checked_mul(*length) {
                Some(total) => Ok(total),
                None => Err(type_error("native codegen does not support array type `", ty, "`")),
            },
            None => Err(type_error("native codegen does not support array element type `", element, "`")),
        },
        Type::Struct(name) => match layouts.struct_layout(name.as_str()) {
            Some(layout) => Ok(layout.size),
            None => Err(name_error("native codegen could not resolve layout for struct `", name.as_str(), "`")),
        },
        _ => {
            if is_supported_scalar_type(ty) {
                Ok(8)
            } else {
                Err(type_error("native codegen does not yet support type `", ty, "`"))
            }
        },
    }
}

/// Whether a local of the type can live in a frame.
pub fn is_supported_local_type(ty: &Type, layouts: &TypeLayouts) -> (r: bool)
    ensures
        r == sized(layouts.structs@, *ty),
{
    type_stack_size(ty, layouts).is_ok()
}

/// Whether values of the type are passed by address: supported, but not a scalar.
pub fn is_pass_indirect_type(ty: &Type, layouts: &TypeLayouts) -> (r: bool)
    ensures
        r == (!is_scalar(*ty) && sized(layouts.structs@, *ty)),
{
    !is_supported_scalar_type(ty) && is_supported_local_type(ty, layouts)
}

/// Whether one of the names is `name`.
pub open spec fn names_contain(names: Seq<String>, name: Seq<char>) -> bool {
    exists|i: int| 0 <= i < names.len() && names[i]@ == name
}

proof fn lemma_find_struct_extend(l: Seq<(String, StructLayout)>, m: Seq<(String, StructLayout)>, name: Seq<char>)
    requires
        l.len() <= m.len(),
        m.take(l.len() as int) == l,
        find_struct(l, name) is Some,
    ensures
        find_struct(m, name) == find_struct(l, name),
    decreases l.len(),
{
    if l[0].0@ != name {
        assert(m[0] == l[0]);
        assert(m.drop_first().take(l.drop_first().len() as int) =~= l.drop_first());
        lemma_find_struct_extend(l.drop_first(), m.drop_first(), name);
    } else {
        assert(m[0] == l[0]);
    }
}

proof fn lemma_type_size_extend(l: Seq<(String, StructLayout)>, m: Seq<(String, StructLayout)>, t: Type)
    requires
        l.len() <= m.len(),
        m.take(l.len() as int) == l,
        type_size(l, t) is Some,
    ensures
        type_size(m, t) == type_size(l, t),
{
    match t {
        Type::Struct(name) => {
            lemma_find_struct_extend(l, m, name@);
            lemma_find_struct_bound(l, name@);
            assert(m[find_struct(l, name@)->0] == l[find_struct(l, name@)->0]);
        },
        _ => {},
    }
}

proof fn lemma_take_chain(a: Seq<(String, StructLayout)>, b: Seq<(String, StructLayout)>, c: Seq<(String, StructLayout)>)
    requires
        a.len() <= b.len() <= c.len(),
        b.take(a.len() as int) == a,
        c.take(b.len() as int) == b,
    ensures
        c.take(a.len() as int) == a,
{
    assert forall|j: int| 0 <= j < a.len() implies c.take(a.len() as int)[j] == a[j] by {
        assert(c[j] == b[j]);
        assert(b[j] == a[j]);
    }
    assert(c.take(a.len() as int) =~= a);
}

proof fn lemma_keep_names(
    a: Seq<(String, StructLayout)>,
    b: Seq<(String, StructLayout)>,
    c: Seq<(String, StructLayout)>,
    v: Seq<String>,
)
    requires
        a.len() <= b.len() <= c.len(),
        c.take(b.len() as int) == b,
        forall|j: int| a.len() <= j < b.len() ==> !names_contain(v, #[trigger] b[j].0@),
        forall|j: int| b.len() <= j < c.len() ==> !names_contain(v, #[trigger] c[j].0@),
    ensures
        forall|j: int| a.len() <= j < c.len() ==> !names_contain(v, #[trigger] c[j].0@),
{
    assert forall|j: int| a.len() <= j < c.len() implies !names_contain(v, #[trigger] c[j].0@) by {
        if j < b.len() {
            assert(c[j] == c.take(b.len() as int)[j]);
            assert(c[j] == b[j]);
        }
    }
}

proof fn lemma_names_shrink(l: Seq<(String, StructLayout)>, from: int, v0: Seq<String>, top: String)
    requires
        forall|j: int| from <= j < l.len() ==> !names_contain(v0.push(top), #[trigger] l[j].0@),
    ensures
        forall|j: int| from <= j < l.len() ==> !names_contain(v0, #[trigger] l[j].0@),
{
    assert forall|j: int| from <= j < l.len() implies !names_contain(v0, #[trigger] l[j].0@) by {
        if names_contain(v0, l[j].0@) {
            let i = choose|i: int| 0 <= i < v0.len() && v0[i]@ == l[j].0@;
            assert(v0.push(top)[i] == v0[i]);
            assert(names_contain(v0.push(top), l[j].0@));
        }
    }
}

/// The first struct of the name in a table of field names.
fn find_order(field_order: &Vec<(String, Vec<String>)>, name: &str) -> (r: Option<usize>)
    ensures
        match r {
            Some(i) => is_first_key(field_order@, name@, i as int),
            None => no_key(field_order@, name@),
        },
{
    let mut i: usize = 0;
    while i < field_order.len()
        invariant
            i <= field_order@.len(),
            forall|k: int| 0 <= k < i ==> field_order@[k].0@ != name@,
        decreases field_order@.len() - i,
    {
        if str_eq(field_order[i].0.as_str(), name) {
            return Some(i);
        }
        i += 1;
    }
    None
}

/// Whether `i` is the first entry of the list under the name.
pub open spec fn is_first_key<T>(s: Seq<(String, T)>, name: Seq<char>, i: int) -> bool {
    &&& 0 <= i < s.len()
    &&& s[i].0@ == name
    &&& forall|k: int| 0 <= k < i ==> s[k].0@ != name
}

/// Whether no entry of the list is under the name.
pub open spec fn no_key<T>(s: Seq<(String, T)>, name: Seq<char>) -> bool {
    forall|k: int| 0 <= k < s.len() ==> s[k].0@ != name
}

/// The first struct of the name in a table of field types.
fn find_types(field_types: &Vec<(String, Vec<(String, Type)>)>, name: &str) -> (r: Option<usize>)
    ensures
        match r {
            Some(i) => is_first_key(field_types@, name@, i as int),
            None => no_key(field_types@, name@),
        },
{
    let mut i: usize = 0;
    while i < field_types.len()
        invariant
            i <= field_types@.len(),
            forall|k: int| 0 <= k < i ==> field_types@[k].0@ != name@,
        decreases field_types@.len() - i,
    {
        if str_eq(field_types[i].0.as_str(), name) {
            return Some(i);
        }
        i += 1;
    }
    None
}

/// The first entry of the field in a list of field types.
fn find_field_type(types: &Vec<(String, Type)>, field: &str) -> (r: Option<usize>)
    ensures
        match r {
            Some(i) => is_first_key(types@, field@, i as int),
            None => no_key(types@, field@),
        },
{
    let mut i: usize = 0;
    while i < types.len()
        invariant
            i <= types@.len(),
            forall|k: int| 0 <= k < i ==> types@[k].0@ != field@,
        decreases types@.len() - i,
    {
        if str_eq(types[i].0.as_str(), field) {
            return Some(i);
        }
        i += 1;
    }
    None
}

/// The type recorded for the field of the struct: the first entry of the field under the
/// first entry of the struct.
pub open spec fn known_field(field_types: Seq<(String, Vec<(String, Type)>)>, struct_name: Seq<char>, field: Seq<char>) -> Option<Type> {
    if exists|i: int| is_first_key(field_types, struct_name, i) {
        let i = choose|i: int| is_first_key(field_types, struct_name, i);
        let types = field_types[i].1@;
        if exists|k: int| is_first_key(types, field, k) {
            Some(types[choose|k: int| is_first_key(types, field, k)].1)
        } else {
            None
        }
    } else {
        None
    }
}

proof fn lemma_first_key_unique<T>(s: Seq<(String, T)>, name: Seq<char>, i: int, j: int)
    requires
        is_first_key(s, name, i),
        is_first_key(s, name, j),
    ensures
        i == j,
{
    if i < j {
        assert(s[i].0@ != name);
    } else if j < i {
        assert(s[j].0@ != name);
    }
}

/// The type known for the field of the struct, if any.
fn known_field_type<'a>(field_types: &'a Vec<(String, Vec<(String, Type)>)>, struct_name: &str, field: &str) -> (r: Option<&'a Type>)
    ensures
        match r {
            Some(t) => known_field(field_types@, struct_name@, field@) == Some(*t),
            None => known_field(field_types@, struct_name@, field@) is None,
        },
{
    match find_types(field_types, struct_name) {
        Some(i) => {
            proof {
                let c = choose|c: int| is_first_key(field_types@, struct_name@, c);
                lemma_first_key_unique(field_types@, struct_name@, i as int, c);
            }
            match find_field_type(&field_types[i].1, field) {
                Some(k) => {
                    proof {
                        let types = field_types@[i as int].1@;
                        let c = choose|c: int| is_first_key(types, field@, c);
                        lemma_first_key_unique(types, field@, k as int, c);
                    }
                    Some(&field_types[i].1[k].1)
                },
                None => {
                    proof {
                        let types = field_types@[i as int].1@;
                        if exists|c: int| is_first_key(types, field@, c) {
                            let c = choose|c: int| is_first_key(types, field@, c);
                            assert(types[c].0@ != field@);
                        }
                    }
                    None
                },
            }
        },
        None => {
            proof {
                if exists|c: int| is_first_key(field_types@, struct_name@, c) {
                    let c = choose|c: int| is_first_key(field_types@, struct_name@, c);
                    assert(field_types@[c].0@ != struct_name@);
                }
            }
            None
        },
    }
}

/// The name of the struct the destination's local is declared as, if it is one.
pub open spec fn declared_struct(function: MirFunction, destination: Place) -> Option<Seq<char>> {
    if destination.local.0 < function.locals@.len() {
        match function.locals@[destination.local.0 as int].ty {
            Type::Struct(name) => Some(name@),
            _ => None,
        }
    } else {
        None
    }
}

/// The struct an aggregate literal builds: the declared type of its destination local, or
/// else the last segment of its path.
fn infer_aggregate_struct_name(function: &MirFunction, destination: &Place, path: &Vec<String>) -> (r: Result<String, CodegenError>)
    ensures
        match r {
            Ok(name) => match declared_struct(*function, *destination) {
                Some(d) => name@ == d,
                None => path@.len() > 0 && name@ == path@.last()@,
            },
            Err(e) => declared_struct(*function, *destination) is None && path@.len() == 0
                && e.message@ == "aggregate struct literal is missing a type path"@,
        },
{
    if destination.local.0 < function.locals.len() {
        match &function.locals[destination.local.0].ty {
            Type::Struct(name) => return Ok(name.clone()),
            _ => {},
        }
    }
    if path.len() > 0 {
        Ok(path[path.len() - 1].clone())
    } else {
        Err(CodegenError::new("aggregate struct literal is missing a type path"))
    }
}

/// The type of a place after its first `n` projections, by the declared local types and
/// the field types known so far.
pub open spec fn layout_place_type(
    function: MirFunction,
    place: Place,
    field_types: Seq<(String, Vec<(String, Type)>)>,
    n: int,
) -> Option<Type>
    decreases n,
{
    if n <= 0 {
        if place.local.0 < function.locals@.len() {
            Some(function.locals@[place.local.0 as int].ty)
        } else {
            None
        }
    } else {
        match layout_place_type(function, place, field_types, n - 1) {
            Some(t) => match (place.projection@[n - 1], t) {
                (ProjectionElem::Field(field), Type::Struct(name)) => known_field(field_types, name@, field@),
                (ProjectionElem::Index(_), Type::Array(element, _)) => Some(*element),
                _ => None,
            },
            None => None,
        }
    }
}

/// Whether an optional type is the expected one, up to copies.
pub open spec fn same_optional_type(r: Option<Type>, expect: Option<Type>) -> bool {
    match (r, expect) {
        (Some(t), Some(u)) => same_type(t, u),
        (None, None) => true,
        _ => false,
    }
}

proof fn lemma_layout_place_type_none(
    function: MirFunction,
    place: Place,
    field_types: Seq<(String, Vec<(String, Type)>)>,
    n: int,
    m: int,
)
    requires
        0 <= n <= m,
        layout_place_type(function, place, field_types, n) is None,
    ensures
        layout_place_type(function, place, field_types, m) is None,
    decreases m - n,
{
    if n < m {
        lemma_layout_place_type_none(function, place, field_types, n, m - 1);
    }
}

/// The type of a place, by the declared local types and the field types known so far.
fn infer_place_type_for_layout(function: &MirFunction, place: &Place, field_types: &Vec<(String, Vec<(String, Type)>)>) -> (r: Option<Type>)
    ensures
        same_optional_type(r, layout_place_type(*function, *place, field_types@, place.projection@.len() as int)),
{
    let ghost n = place.projection@.len() as int;
    if place.local.0 >= function.locals.len() {
        proof {
            lemma_layout_place_type_none(*function, *place, field_types@, 0, n);
        }
        return None;
    }
    let mut ty = function.locals[place.local.0].ty.duplicate();
    let mut i: usize = 0;
    while i < place.projection.len()
        invariant
            i <= place.projection@.len(),
            n == place.projection@.len(),
            layout_place_type(*function, *place, field_types@, i as int) matches Some(u) && same_type(ty, u),
        decreases place.projection@.len() - i,
    {
        let ghost u = layout_place_type(*function, *place, field_types@, i as int)->0;
        let next = match (&place.projection[i], &ty) {
            (ProjectionElem::Field(field), Type::Struct(struct_name)) => {
                match known_field_type(field_types, struct_name.as_str(), field.as_str()) {
                    Some(t) => t.duplicate(),
                    None => {
                        proof {
                            lemma_layout_place_type_none(*function, *place, field_types@, i + 1, n);
                        }
                        return None;
                    },
                }
            },
            (ProjectionElem::Index(_), Type::Array(element, _)) => {
                let e = element.duplicate();
                proof {
                    match u {
                        Type::Array(ue, _) => crate::types::lemma_same_type_trans(e, **element, *ue),
                        _ => {},
                    }
                }
                e
            },
            _ => {
                proof {
                    lemma_layout_place_type_none(*function, *place, field_types@, i + 1, n);
                }
                return None;
            },
        };
        ty = next;
        i += 1;
    }
    Some(ty)
}

fn infer_operand_type_for_layout(function: &MirFunction, operand: &Operand, field_types: &Vec<(String, Vec<(String, Type)>)>) -> (r: Option<Type>)
    ensures
        match *operand {
            Operand::Constant(c) => r matches Some(t) && same_type(t, c.ty),
            Operand::Copy(place) | Operand::Move(place) => same_optional_type(
                r,
                layout_place_type(*function, place, field_types@, place.projection@.len() as int),
            ),
        },
{
    match operand {
        Operand::Constant(constant) => Some(constant.ty.duplicate()),
        Operand::Copy(place) | Operand::Move(place) => infer_place_type_for_layout(function, place, field_types),
    }
}

/// The size of a type while layouts are being resolved: a struct is resolved first.
fn type_stack_size_with_layouts(
    ty: &Type,
    field_order: &Vec<(String, Vec<String>)>,
    field_types: &Vec<(String, Vec<(String, Type)>)>,
    resolved: &mut Vec<(String, StructLayout)>,
    visiting: &mut Vec<String>,
) -> (r: Result<usize, CodegenError>)
    requires
        layouts_consistent(old(resolved)@),
        old(visiting)@.len() <= field_order@.len() + 1,
    ensures
        layouts_consistent(final(resolved)@),
        final(resolved)@.len() >= old(resolved)@.len(),
        final(resolved)@.take(old(resolved)@.len() as int) == old(resolved)@,
        forall|j: int| old(resolved)@.len() <= j < final(resolved)@.len() ==> !names_contain(old(visiting)@, #[trigger] final(resolved)@[j].0@),
        final(visiting)@ == old(visiting)@,
        r matches Ok(n) ==> type_size(final(resolved)@, *ty) == Some(n as nat),
        !(*ty is Struct) ==> final(resolved)@ == old(resolved)@ && (r is Ok <==> sized(old(resolved)@, *ty)),
        (*ty matches Type::Struct(name) && find_struct(old(resolved)@, name@) is Some) ==> r is Ok && final(resolved)@ == old(resolved)@,
    decreases field_order@.len() + 1 - old(visiting)@.len(), 1nat,
{
    match ty {
        Type::Array(element, length) => {
            proof {
                assert(resolved@.take(resolved@.len() as int) =~= resolved@);
            }
            match supported_array_element_size(element) {
                Some(size) => match size.checked_mul(*length) {
                    Some(total) => {
                        assert(type_size(resolved@, *ty) == Some(total as nat));
                        Ok(total)
                    },
                    None => Err(type_error("native codegen does not support array type `", ty, "`")),
                },
                None => Err(type_error("native codegen does not support array element type `", element, "`")),
            }
        },
        Type::Struct(name) => {
            resolve_struct_layout(name.as_str(), field_order, field_types, resolved, visiting)?;
            proof {
                lemma_find_struct_bound(resolved@, name@);
            }
            let key = name.as_str();
            match find_resolved(resolved, key) {
                Some(i) => {
                    assert(key@ == name@);
                    assert(find_struct(resolved@, key@) == Some(i as int));
                    assert(*ty == Type::Struct(*name));
                    assert(type_size(resolved@, *ty) == Some(resolved@[i as int].1.size as nat));
                    Ok(resolved[i].1.size)
                },
                None => Err(name_error("native codegen could not resolve layout for struct `", name.as_str(), "`")),
            }
        },
        _ => {
            proof {
                assert(resolved@.take(resolved@.len() as int) =~= resolved@);
            }
            if is_supported_scalar_type(ty) {
                assert(type_size(resolved@, *ty) == Some(8nat));
                Ok(8)
            } else {
                Err(type_error("native codegen does not yet support type `", ty, "`"))
            }
        },
    }
}

/// Resolves the layout of the named struct, and first of the structs its fields hold:
/// each field at the offset where the one before it ends. A struct that holds itself,
/// directly or not, is refused.
fn resolve_struct_layout(
    name: &str,
    field_order: &Vec<(String, Vec<String>)>,
    field_types: &Vec<(String, Vec<(String, Type)>)>,
    resolved: &mut Vec<(String, StructLayout)>,
    visiting: &mut Vec<String>,
) -> (r: Result<(), CodegenError>)
    requires
        layouts_consistent(old(resolved)@),
        old(visiting)@.len() <= field_order@.len() + 1,
    ensures
        layouts_consistent(final(resolved)@),
        final(resolved)@.len() >= old(resolved)@.len(),
        final(resolved)@.take(old(resolved)@.len() as int) == old(resolved)@,
        forall|j: int| old(resolved)@.len() <= j < final(resolved)@.len() ==> !names_contain(old(visiting)@, #[trigger] final(resolved)@[j].0@),
        final(visiting)@ == old(visiting)@,
        r is Ok ==> find_struct(final(resolved)@, name@) is Some,
        find_struct(old(resolved)@, name@) is Some ==> r is Ok && final(resolved)@ == old(resolved)@,
        find_struct(old(resolved)@, name@) is None && names_contain(old(visiting)@, name@) ==> (r matches Err(e)
            && e.message@ == "native codegen does not support recursive struct layout for `"@ + name@ + "`"@),
        find_struct(old(resolved)@, name@) is None && !names_contain(old(visiting)@, name@) && no_key(field_order@, name@)
            ==> (r matches Err(e) && e.message@ == "native codegen could not infer fields for struct `"@ + name@ + "`"@),
        find_struct(old(resolved)@, name@) is None && !names_contain(old(visiting)@, name@) && !no_key(field_order@, name@)
            && no_key(field_types@, name@) ==> (r matches Err(e)
            && e.message@ == "native codegen could not infer field types for struct `"@ + name@ + "`"@),
    decreases field_order@.len() + 1 - old(visiting)@.len(), 0nat,
{
    let ghost r0 = resolved@;
    proof {
        assert(resolved@.take(resolved@.len() as int) =~= resolved@);
    }
    let mut k: usize = 0;
    while k < resolved.len()
        invariant
            k <= resolved@.len(),
            resolved@ == r0,
            r0 == old(resolved)@,
            layouts_consistent(r0),
            visiting@ == old(visiting)@,
            forall|j: int| 0 <= j < k ==> resolved@[j].0@ != name@,
        decreases resolved@.len() - k,
    {
        if str_eq(resolved[k].0.as_str(), name) {
            proof {
                assert(find_struct(resolved@, name@) is Some) by {
                    lemma_find_struct_bound(resolved@, name@);
                }
            }
            return Ok(());
        }
        k += 1;
    }
    proof {
        lemma_find_struct_bound(resolved@, name@);
        if find_struct(resolved@, name@) is Some {
            let j = find_struct(resolved@, name@)->0;
            assert(resolved@[j].0@ != name@);
        }
    }
    let mut v: usize = 0;
    while v < visiting.len()
        invariant
            v <= visiting@.len(),
            resolved@ == r0,
            r0 == old(resolved)@,
            layouts_consistent(r0),
            visiting@ == old(visiting)@,
            find_struct(old(resolved)@, name@) is None,
            forall|j: int| 0 <= j < v ==> visiting@[j]@ != name@,
        decreases visiting@.len() - v,
    {
        if str_eq(visiting[v].as_str(), name) {
            return Err(name_error("native codegen does not support recursive struct layout for `", name, "`"));
        }
        v += 1;
    }
    proof {
        if names_contain(visiting@, name@) {
            let j = choose|j: int| 0 <= j < visiting@.len() && visiting@[j]@ == name@;
            assert(visiting@[j]@ != name@);
        }
    }
    let order_index = match find_order(field_order, name) {
        Some(i) => i,
        None => return Err(name_error("native codegen could not infer fields for struct `", name, "`")),
    };
    let types_index = match find_types(field_types, name) {
        Some(i) => i,
        None => return Err(name_error("native codegen could not infer field types for struct `", name, "`")),
    };
    if visiting.len() > field_order.len() {
        return Err(name_error("native codegen does not support recursive struct layout for `", name, "`"));
    }
    let ghost v0 = visiting@;
    visiting.push(crate::text::owned(name));
    let order = &field_order[order_index].1;
    let types = &field_types[types_index].1;
    let mut fields: Vec<StructFieldLayout> = Vec::new();
    let mut offset: usize = 0;
    let mut i: usize = 0;
    while i < order.len()
        invariant
            i <= order@.len(),
            visiting@ == v0.push(visiting@.last()),
            visiting@.last()@ == name@,
            v0 == old(visiting)@,
            v0.len() <= field_order@.len(),
            layouts_consistent(resolved@),
            resolved@.len() >= r0.len(),
            resolved@.take(r0.len() as int) == r0,
            r0 == old(resolved)@,
            forall|j: int| r0.len() <= j < resolved@.len() ==> !names_contain(visiting@, #[trigger] resolved@[j].0@),
            forall|j: int| 0 <= j < r0.len() ==> r0[j].0@ != name@,
            find_struct(r0, name@) is None,
            !names_contain(v0, name@),
            !no_key(field_order@, name@),
            !no_key(field_types@, name@),
            fields@.len() == i,
            forall|f: int| 0 <= f < i ==> #[trigger] type_size(resolved@, fields@[f].ty) is Some,
            i > 0 ==> fields@[0].offset == 0,
            i == 0 ==> offset == 0,
            forall|f: int| 0 <= f < i ==> #[trigger] fields@[f].offset + type_size(resolved@, fields@[f].ty)->0 == if f + 1 < i {
                fields@[f + 1].offset as int
            } else {
                offset as int
            },
        decreases order@.len() - i,
    {
        let field_name = &order[i];
        let field_ty = match find_field_type(types, field_name.as_str()) {
            Some(t) => types[t].1.duplicate(),
            None => {
                let ghost top = visiting@.last();
                visiting.pop();
                let mut text = chars_of("native codegen could not infer type for `");
                push_str_chars(&mut text, name);
                push_str_chars(&mut text, ".");
                push_str_chars(&mut text, field_name.as_str());
                push_str_chars(&mut text, "`");
                proof {
                    assert(visiting@ =~= v0);
                    lemma_names_shrink(resolved@, r0.len() as int, v0, top);
                }
                return Err(CodegenError::from_chars(&text));
            },
        };
        let ghost before = resolved@;
        let sized = type_stack_size_with_layouts(&field_ty, field_order, field_types, resolved, visiting);
        let size = match sized {
            Ok(size) => size,
            Err(e) => {
                let ghost top = visiting@.last();
                proof {
                    lemma_keep_names(r0, before, resolved@, visiting@);
                }
                visiting.pop();
                proof {
                    assert(visiting@ =~= v0);
                    lemma_take_chain(r0, before, resolved@);
                    lemma_names_shrink(resolved@, r0.len() as int, v0, top);
                }
                return Err(e);
            },
        };
        let next = match offset.checked_add(size) {
            Some(n) => n,
            None => {
                let ghost top = visiting@.last();
                proof {
                    lemma_keep_names(r0, before, resolved@, visiting@);
                }
                visiting.pop();
                proof {
                    assert(visiting@ =~= v0);
                    lemma_take_chain(r0, before, resolved@);
                    lemma_names_shrink(resolved@, r0.len() as int, v0, top);
                }
                return Err(name_error("native codegen does not support struct layout for `", name, "`"));
            },
        };
        proof {
            lemma_take_chain(r0, before, resolved@);
            lemma_keep_names(r0, before, resolved@, visiting@);
            assert forall|f: int| 0 <= f < i implies #[trigger] type_size(resolved@, fields@[f].ty) == type_size(before, fields@[f].ty) by {
                lemma_type_size_extend(before, resolved@, fields@[f].ty);
            }
        }
        let ghost fields_before = fields@;
        fields.push(StructFieldLayout { name: field_name.clone(), ty: field_ty, offset });
        proof {
            assert(fields@[i as int].ty == field_ty);
            assert forall|f: int| 0 <= f < i + 1 implies #[trigger] type_size(resolved@, fields@[f].ty) is Some by {
                if f < i {
                    assert(fields@[f] == fields_before[f]);
                }
            }
            assert forall|f: int| 0 <= f < i + 1 implies #[trigger] fields@[f].offset + type_size(resolved@, fields@[f].ty)->0
                == if f + 1 < i + 1 {
                fields@[f + 1].offset as int
            } else {
                next as int
            } by {
                if f < i {
                    assert(fields@[f] == fields_before[f]);
                    assert(type_size(resolved@, fields@[f].ty) == type_size(before, fields@[f].ty));
                }
            }
        }
        offset = next;
        i += 1;
    }
    let ghost top = visiting@.last();
    proof {
        assert(visiting@.last() == visiting@[visiting@.len() - 1]);
        assert(names_contain(visiting@, name@));
    }
    visiting.pop();
    proof {
        assert(visiting@ =~= v0);
    }
    let layout = StructLayout { fields, size: offset };
    let ghost before_push = resolved@;
    proof {
        assert(offsets_follow_sizes(before_push, layout));
        assert forall|j: int| 0 <= j < before_push.len() implies before_push[j].0@ != name@ by {
            if j < r0.len() {
                assert(before_push[j] == r0[j]);
            } else {
                assert(!names_contain(v0.push(top), before_push[j].0@));
            }
        }
        lemma_names_shrink(before_push, r0.len() as int, v0, top);
    }
    let entry_name = crate::text::owned(name);
    proof {
        lemma_consistent_push(before_push, (entry_name, layout));
    }
    resolved.push((entry_name, layout));
    proof {
        assert(resolved@.take(r0.len() as int) =~= r0) by {
            assert forall|j: int| 0 <= j < r0.len() implies resolved@[j] == r0[j] by {
                assert(resolved@[j] == before_push[j]);
            }
        }
        lemma_find_struct_bound(resolved@, name@);
        assert(resolved@[resolved@.len() - 1].0@ == name@);
    }
    Ok(())
}

/// The names of a list of strings.
pub open spec fn names_view(v: Seq<String>) -> Seq<Seq<char>> {
    v.map_values(|s: String| s@)
}

/// The order after the first `n` field names were added, each only if it is not in it yet.
pub open spec fn names_added(order: Seq<Seq<char>>, fields: Seq<(String, Operand)>, n: int) -> Seq<Seq<char>>
    decreases n,
{
    if n <= 0 || n > fields.len() {
        order
    } else {
        let prev = names_added(order, fields, n - 1);
        if prev.contains(fields[n - 1].0@) {
            prev
        } else {
            prev.push(fields[n - 1].0@)
        }
    }
}

/// Appends the field names the order does not have yet.
fn add_field_names(order: &mut Vec<String>, fields: &Vec<(String, Operand)>)
    ensures
        names_view(final(order)@) == names_added(names_view(old(order)@), fields@, fields@.len() as int),
{
    let ghost start = names_view(order@);
    let mut i: usize = 0;
    while i < fields.len()
        invariant
            i <= fields@.len(),
            names_view(order@) == names_added(start, fields@, i as int),
        decreases fields@.len() - i,
    {
        let mut known = false;
        let mut k: usize = 0;
        while k < order.len()
            invariant
                i < fields@.len(),
                k <= order@.len(),
                known == exists|j: int| 0 <= j < k && order@[j]@ == fields@[i as int].0@,
            decreases order@.len() - k,
        {
            if str_eq(order[k].as_str(), fields[i].0.as_str()) {
                known = true;
            }
            k += 1;
        }
        proof {
            let v = names_view(order@);
            let x = fields@[i as int].0@;
            if known {
                let j = choose|j: int| 0 <= j < k && order@[j]@ == x;
                assert(v[j] == x);
            } else {
                assert forall|j: int| 0 <= j < v.len() implies v[j] != x by {
                    assert(v[j] == order@[j]@);
                }
            }
            assert(known == v.contains(x));
        }
        if !known {
            let ghost before = order@;
            order.push(fields[i].0.clone());
            proof {
                assert(names_view(order@) =~= names_view(before).push(fields@[i as int].0@));
            }
        }
        i += 1;
    }
}

/// A table of field names by its views.
pub open spec fn order_view(t: Seq<(String, Vec<String>)>) -> Seq<(Seq<char>, Seq<Seq<char>>)> {
    t.map_values(|e: (String, Vec<String>)| (e.0@, names_view(e.1@)))
}

/// Records the field names of a struct literal in the order they are first seen.
fn record_field_order(field_order: &mut Vec<(String, Vec<String>)>, struct_name: String, fields: &Vec<(String, Operand)>)
    ensures
        if exists|i: int| is_first_key(old(field_order)@, struct_name@, i) {
            let i = choose|i: int| is_first_key(old(field_order)@, struct_name@, i);
            order_view(final(field_order)@) == order_view(old(field_order)@).update(
                i,
                (struct_name@, names_added(names_view(old(field_order)@[i].1@), fields@, fields@.len() as int)),
            )
        } else {
            order_view(final(field_order)@) == order_view(old(field_order)@).push(
                (struct_name@, names_added(Seq::empty(), fields@, fields@.len() as int)),
            )
        },
{
    let ghost old_view = order_view(field_order@);
    match find_order(field_order, struct_name.as_str()) {
        Some(i) => {
            proof {
                let c = choose|c: int| is_first_key(field_order@, struct_name@, c);
                lemma_first_key_unique(field_order@, struct_name@, i as int, c);
            }
            let ghost before = field_order@;
            let (name, mut order) = field_order.remove(i);
            add_field_names(&mut order, fields);
            field_order.insert(i, (name, order));
            proof {
                assert(order_view(field_order@) =~= old_view.update(
                    i as int,
                    (struct_name@, names_added(names_view(before[i as int].1@), fields@, fields@.len() as int)),
                ));
            }
        },
        None => {
            proof {
                if exists|c: int| is_first_key(field_order@, struct_name@, c) {
                    let c = choose|c: int| is_first_key(field_order@, struct_name@, c);
                    assert(field_order@[c].0@ != struct_name@);
                }
            }
            let mut order: Vec<String> = Vec::new();
            proof {
                assert(names_view(order@) =~= Seq::<Seq<char>>::empty());
            }
            add_field_names(&mut order, fields);
            let ghost sv = struct_name@;
            field_order.push((struct_name, order));
            proof {
                assert(order_view(field_order@) =~= old_view.push((sv, names_added(Seq::empty(), fields@, fields@.len() as int))));
            }
        },
    }
}

/// A list of field types by its views.
pub open spec fn types_view(v: Seq<(String, Type)>) -> Seq<(Seq<char>, Type)> {
    v.map_values(|e: (String, Type)| (e.0@, e.1))
}

/// Whether `i` is the first entry under the name in a viewed list.
pub open spec fn is_first_view<T>(s: Seq<(Seq<char>, T)>, name: Seq<char>, i: int) -> bool {
    &&& 0 <= i < s.len()
    &&& s[i].0 == name
    &&& forall|k: int| 0 <= k < i ==> s[k].0 != name
}

/// The field types after the first `n` inferred ones were recorded: a known field takes
/// the new type at its first entry, a new one is appended; and whether any was new.
pub open spec fn types_recorded(known: Seq<(Seq<char>, Type)>, inferred: Seq<(Seq<char>, Type)>, n: int) -> (Seq<(Seq<char>, Type)>, bool)
    decreases n,
{
    if n <= 0 || n > inferred.len() {
        (known, false)
    } else {
        let (prev, changed) = types_recorded(known, inferred, n - 1);
        let (field, ty) = inferred[n - 1];
        if exists|k: int| is_first_view(prev, field, k) {
            (prev.update(choose|k: int| is_first_view(prev, field, k), (field, ty)), changed)
        } else {
            (prev.push((field, ty)), true)
        }
    }
}

proof fn lemma_first_view_unique<T>(s: Seq<(Seq<char>, T)>, name: Seq<char>, i: int, j: int)
    requires
        is_first_view(s, name, i),
        is_first_view(s, name, j),
    ensures
        i == j,
{
    if i < j {
        assert(s[i].0 != name);
    } else if j < i {
        assert(s[j].0 != name);
    }
}

/// A table of field types by its views.
pub open spec fn field_types_view(t: Seq<(String, Vec<(String, Type)>)>) -> Seq<(Seq<char>, Seq<(Seq<char>, Type)>)> {
    t.map_values(|e: (String, Vec<(String, Type)>)| (e.0@, types_view(e.1@)))
}

/// Records newly inferred field types; whether a field got its first type.
fn record_field_types(
    field_types: &mut Vec<(String, Vec<(String, Type)>)>,
    struct_name: String,
    inferred: Vec<(String, Type)>,
) -> (changed: bool)
    ensures
        if exists|i: int| is_first_key(old(field_types)@, struct_name@, i) {
            let i = choose|i: int| is_first_key(old(field_types)@, struct_name@, i);
            let merged = types_recorded(types_view(old(field_types)@[i].1@), types_view(inferred@), inferred@.len() as int);
            &&& field_types_view(final(field_types)@) == field_types_view(old(field_types)@).update(i, (struct_name@, merged.0))
            &&& changed == merged.1
        } else {
            let merged = types_recorded(Seq::empty(), types_view(inferred@), inferred@.len() as int);
            &&& field_types_view(final(field_types)@) == field_types_view(old(field_types)@).push((struct_name@, merged.0))
            &&& changed == merged.1
        },
{
    let ghost old_view = field_types_view(field_types@);
    let ghost sv = struct_name@;
    let ghost found = exists|i: int| is_first_key(field_types@, struct_name@, i);
    let (name, mut known, index) = match find_types(field_types, struct_name.as_str()) {
        Some(i) => {
            proof {
                let c = choose|c: int| is_first_key(field_types@, struct_name@, c);
                lemma_first_key_unique(field_types@, struct_name@, i as int, c);
            }
            let (name, known) = field_types.remove(i);
            (name, known, i)
        },
        None => {
            proof {
                if exists|c: int| is_first_key(field_types@, struct_name@, c) {
                    let c = choose|c: int| is_first_key(field_types@, struct_name@, c);
                    assert(field_types@[c].0@ != struct_name@);
                }
            }
            let known: Vec<(String, Type)> = Vec::new();
            proof {
                assert(types_view(known@) =~= Seq::<(Seq<char>, Type)>::empty());
            }
            (struct_name, known, field_types.len())
        },
    };
    let ghost start = types_view(known@);
    let ghost inf = types_view(inferred@);
    let ghost total = inferred@.len() as int;
    let mut changed = false;
    let mut pending = inferred;
    while pending.len() > 0
        invariant
            0 <= total - pending@.len() <= total,
            total == inf.len(),
            types_view(pending@) == inf.subrange(total - pending@.len(), total),
            (types_view(known@), changed) == types_recorded(start, inf, total - pending@.len()),
        decreases pending@.len(),
    {
        let ghost done = total - pending@.len();
        let ghost before = pending@;
        let (field, ty) = pending.remove(0);
        proof {
            assert(types_view(before)[0] == inf[done]);
            assert forall|j: int| 0 <= j < pending@.len() implies types_view(pending@)[j] == inf.subrange(done + 1, total)[j] by {
                assert(pending@[j] == before[j + 1]);
                assert(types_view(before)[j + 1] == inf.subrange(done, total)[j + 1]);
            }
            assert(types_view(pending@) =~= inf.subrange(done + 1, total));
        }
        let ghost kv = types_view(known@);
        match find_field_type(&known, field.as_str()) {
            Some(k) => {
                proof {
                    assert(is_first_view(kv, field@, k as int)) by {
                        assert forall|j: int| 0 <= j < k implies kv[j].0 != field@ by {
                            assert(kv[j].0 == known@[j].0@);
                        }
                    }
                    let c = choose|c: int| is_first_view(kv, field@, c);
                    lemma_first_view_unique(kv, field@, k as int, c);
                }
                let ghost fv = field@;
                known.remove(k);
                known.insert(k, (field, ty));
                proof {
                    assert(types_view(known@) =~= kv.update(k as int, (fv, ty)));
                }
            },
            None => {
                proof {
                    if exists|c: int| is_first_view(kv, field@, c) {
                        let c = choose|c: int| is_first_view(kv, field@, c);
                        assert(kv[c].0 == known@[c].0@);
                    }
                }
                let ghost fv = field@;
                known.push((field, ty));
                changed = true;
                proof {
                    assert(types_view(known@) =~= kv.push((fv, ty)));
                }
            },
        }
    }
    let ghost merged = types_view(known@);
    let ghost mid = field_types@;
    if index <= field_types.len() {
        field_types.insert(index, (name, known));
    } else {
        field_types.push((name, known));
    }
    proof {
        if found {
            assert(field_types_view(field_types@) =~= old_view.update(index as int, (sv, merged)));
        } else {
            assert(field_types_view(field_types@) =~= old_view.push((sv, merged)));
        }
    }
    changed
}

/// Whether the statement assigns a struct literal.
pub open spec fn is_struct_literal(s: crate::mir::nodes::Statement) -> bool {
    s.kind matches StatementKind::Assign(_, Rvalue::AggregateStruct { .. })
}

/// Whether a struct literal names its struct: by its destination's declared type or by a
/// path; anything else names nothing to check.
pub open spec fn literal_named(function: MirFunction, s: crate::mir::nodes::Statement) -> bool {
    match s.kind {
        StatementKind::Assign(place, Rvalue::AggregateStruct { path, .. }) => declared_struct(function, place) is Some
            || path@.len() > 0,
        _ => true,
    }
}

pub open spec fn block_literals_named(function: MirFunction, b: crate::mir::nodes::BasicBlockData) -> bool {
    forall|t: int| 0 <= t < b.statements@.len() ==> #[trigger] literal_named(function, b.statements@[t])
}

pub open spec fn function_literals_named(function: MirFunction) -> bool {
    forall|c: int| 0 <= c < function.blocks@.len() ==> #[trigger] block_literals_named(function, function.blocks@[c])
}

/// Every struct literal of the program names its struct.
pub open spec fn literals_named(p: MirProgram) -> bool {
    forall|g: int| 0 <= g < p.functions@.len() ==> #[trigger] function_literals_named(p.functions@[g])
}

/// The program builds no struct literal.
pub open spec fn no_struct_literals(p: MirProgram) -> bool {
    forall|g: int, c: int, t: int|
        0 <= g < p.functions@.len() && 0 <= c < p.functions@[g].blocks@.len() && 0 <= t
            < p.functions@[g].blocks@[c].statements@.len() ==> !#[trigger] is_struct_literal(
            p.functions@[g].blocks@[c].statements@[t],
        )
}

/// Whether statement `t` of block `c` of function `g` is a struct literal.
pub open spec fn literal_at(p: MirProgram, g: int, c: int, t: int) -> bool {
    &&& 0 <= g < p.functions@.len()
    &&& 0 <= c < p.functions@[g].blocks@.len()
    &&& 0 <= t < p.functions@[g].blocks@[c].statements@.len()
    &&& is_struct_literal(p.functions@[g].blocks@[c].statements@[t])
}

/// The struct a literal builds: its destination's declared struct, else the last segment of
/// its path.
pub open spec fn literal_struct(function: MirFunction, s: crate::mir::nodes::Statement) -> Seq<char> {
    match s.kind {
        StatementKind::Assign(place, Rvalue::AggregateStruct { path, .. }) => match declared_struct(function, place) {
            Some(d) => d,
            None => path@.last()@,
        },
        _ => Seq::empty(),
    }
}

pub open spec fn literal_struct_at(p: MirProgram, g: int, c: int, t: int) -> Seq<char> {
    literal_struct(p.functions@[g], p.functions@[g].blocks@[c].statements@[t])
}

/// Whether the table of field names has an entry for the struct.
pub open spec fn order_has(order: Seq<(String, Vec<String>)>, name: Seq<char>) -> bool {
    exists|j: int| 0 <= j < order.len() && order[j].0@ == name
}

/// Every struct a literal of the program builds has an entry in the table.
pub open spec fn all_literals_recorded(p: MirProgram, order: Seq<(String, Vec<String>)>) -> bool {
    forall|g: int, c: int, t: int| #[trigger] literal_at(p, g, c, t) ==> order_has(order, literal_struct_at(p, g, c, t))
}

/// Every struct a literal of the program builds has a layout.
pub open spec fn literals_laid_out(p: MirProgram, structs: Seq<(String, StructLayout)>) -> bool {
    forall|g: int, c: int, t: int| #[trigger] literal_at(p, g, c, t) ==> find_struct(structs, literal_struct_at(p, g, c, t)) is Some
}

/// Recording a literal keeps every struct the table had and adds the literal's.
proof fn lemma_order_grows(
    before: Seq<(String, Vec<String>)>,
    after: Seq<(String, Vec<String>)>,
    name: Seq<char>,
    fields: Seq<(String, Operand)>,
)
    requires
        if exists|i: int| is_first_key(before, name, i) {
            let i = choose|i: int| is_first_key(before, name, i);
            order_view(after) == order_view(before).update(
                i,
                (name, names_added(names_view(before[i].1@), fields, fields.len() as int)),
            )
        } else {
            order_view(after) == order_view(before).push((name, names_added(Seq::empty(), fields, fields.len() as int)))
        },
    ensures
        order_has(after, name),
        forall|x: Seq<char>| order_has(before, x) ==> #[trigger] order_has(after, x),
{
    assert(order_view(after).len() == after.len());
    assert(order_view(before).len() == before.len());
    if exists|i: int| is_first_key(before, name, i) {
        let i = choose|i: int| is_first_key(before, name, i);
        assert(order_view(after)[i].0 == name);
        assert(after[i].0@ == order_view(after)[i].0);
        assert forall|x: Seq<char>| order_has(before, x) implies #[trigger] order_has(after, x) by {
            let j = choose|j: int| 0 <= j < before.len() && before[j].0@ == x;
            assert(order_view(before)[j].0 == x);
            assert(after[j].0@ == order_view(after)[j].0);
        }
    } else {
        let n = before.len() as int;
        assert(order_view(after).len() == n + 1);
        assert(after[n].0@ == order_view(after)[n].0);
        assert forall|x: Seq<char>| order_has(before, x) implies #[trigger] order_has(after, x) by {
            let j = choose|j: int| 0 <= j < before.len() && before[j].0@ == x;
            assert(order_view(before)[j].0 == x);
            assert(after[j].0@ == order_view(after)[j].0);
        }
    }
}

/// Infers the fields of every struct from the struct literals of the program, their order
/// from first sight and their types from the values given them, then lays each struct
/// out: every field where the one before it ends.
pub fn build_type_layouts(program: &MirProgram) -> (r: Result<TypeLayouts, CodegenError>)
    ensures
        r matches Ok(l) ==> layouts_consistent(l.structs@),
        !literals_named(*program) ==> r is Err,
        no_struct_literals(*program) ==> (r matches Ok(l) && l.structs@.len() == 0),
        r matches Ok(l) ==> literals_laid_out(*program, l.structs@),
{
    let mut field_order: Vec<(String, Vec<String>)> = Vec::new();
    let mut field_types: Vec<(String, Vec<(String, Type)>)> = Vec::new();
    let ghost none = no_struct_literals(*program);
    let mut f: usize = 0;
    while f < program.functions.len()
        invariant
            f <= program.functions@.len(),
            none == no_struct_literals(*program),
            none ==> field_order@.len() == 0,
            forall|g: int| 0 <= g < f ==> #[trigger] function_literals_named(program.functions@[g]),
            forall|g: int, c: int, t: int| 0 <= g < f && #[trigger] literal_at(*program, g, c, t) ==> order_has(
                field_order@,
                literal_struct_at(*program, g, c, t),
            ),
        decreases program.functions@.len() - f,
    {
        let function = &program.functions[f];
        let mut b: usize = 0;
        while b < function.blocks.len()
            invariant
                f < program.functions@.len(),
                *function == program.functions@[f as int],
                b <= function.blocks@.len(),
                none == no_struct_literals(*program),
                none ==> field_order@.len() == 0,
                forall|g: int| 0 <= g < f ==> #[trigger] function_literals_named(program.functions@[g]),
                forall|c: int| 0 <= c < b ==> #[trigger] block_literals_named(*function, function.blocks@[c]),
                forall|g: int, c: int, t: int| (0 <= g < f || (g == f && 0 <= c < b)) && #[trigger] literal_at(*program, g, c, t)
                    ==> order_has(field_order@, literal_struct_at(*program, g, c, t)),
            decreases function.blocks@.len() - b,
        {
            let block = &function.blocks[b];
            let mut s: usize = 0;
            while s < block.statements.len()
                invariant
                    f < program.functions@.len(),
                    *function == program.functions@[f as int],
                    b < function.blocks@.len(),
                    *block == function.blocks@[b as int],
                    s <= block.statements@.len(),
                    none == no_struct_literals(*program),
                    none ==> field_order@.len() == 0,
                    forall|g: int| 0 <= g < f ==> #[trigger] function_literals_named(program.functions@[g]),
                    forall|c: int| 0 <= c < b ==> #[trigger] block_literals_named(*function, function.blocks@[c]),
                    forall|t: int| 0 <= t < s ==> #[trigger] literal_named(*function, block.statements@[t]),
                    forall|g: int, c: int, t: int| (0 <= g < f || (g == f && 0 <= c < b) || (g == f && c == b && 0 <= t < s))
                        && #[trigger] literal_at(*program, g, c, t) ==> order_has(field_order@, literal_struct_at(*program, g, c, t)),
                decreases block.statements@.len() - s,
            {
                match &block.statements[s].kind {
                    StatementKind::Assign(place, Rvalue::AggregateStruct { path, fields }) => {
                        proof {
                            if none {
                                assert(!is_struct_literal(program.functions@[f as int].blocks@[b as int].statements@[s as int]));
                            }
                        }
                        let struct_name = match infer_aggregate_struct_name(function, place, path) {
                            Ok(name) => name,
                            Err(e) => {
                                proof {
                                    assert(!literal_named(*function, block.statements@[s as int]));
                                    assert(!block_literals_named(*function, function.blocks@[b as int]));
                                    assert(!function_literals_named(program.functions@[f as int]));
                                }
                                return Err(e);
                            },
                        };
                        let ghost name_view = struct_name@;
                        let ghost before = field_order@;
                        record_field_order(&mut field_order, struct_name, fields);
                        proof {
                            lemma_order_grows(before, field_order@, name_view, fields@);
                            assert(name_view == literal_struct_at(*program, f as int, b as int, s as int));
                        }
                    },
                    _ => {},
                }
                s += 1;
            }
            b += 1;
        }
        f += 1;
    }
    proof {
        assert(literals_named(*program));
        assert(all_literals_recorded(*program, field_order@));
    }
    let mut round: usize = 0;
    while round < 32
        invariant
            none == no_struct_literals(*program),
            none ==> field_order@.len() == 0,
            literals_named(*program),
            all_literals_recorded(*program, field_order@),
        decreases 32 - round,
    {
        let mut changed = false;
        let mut f: usize = 0;
        while f < program.functions.len()
            invariant
                f <= program.functions@.len(),
                none == no_struct_literals(*program),
                none ==> field_order@.len() == 0,
                literals_named(*program),
                all_literals_recorded(*program, field_order@),
            decreases program.functions@.len() - f,
        {
            let function = &program.functions[f];
            let mut b: usize = 0;
            while b < function.blocks.len()
                invariant
                    f < program.functions@.len(),
                    *function == program.functions@[f as int],
                    b <= function.blocks@.len(),
                    none == no_struct_literals(*program),
                    none ==> field_order@.len() == 0,
                    literals_named(*program),
                    all_literals_recorded(*program, field_order@),
                decreases function.blocks@.len() - b,
            {
                let block = &function.blocks[b];
                let mut s: usize = 0;
                while s < block.statements.len()
                    invariant
                        f < program.functions@.len(),
                        *function == program.functions@[f as int],
                        b < function.blocks@.len(),
                        *block == function.blocks@[b as int],
                        s <= block.statements@.len(),
                        none == no_struct_literals(*program),
                        none ==> field_order@.len() == 0,
                        literals_named(*program),
                        all_literals_recorded(*program, field_order@),
                    decreases block.statements@.len() - s,
                {
                    match &block.statements[s].kind {
                        StatementKind::Assign(place, Rvalue::AggregateStruct { path, fields }) => {
                            proof {
                                assert(function_literals_named(program.functions@[f as int]));
                                assert(block_literals_named(*function, function.blocks@[b as int]));
                                assert(literal_named(*function, block.statements@[s as int]));
                            }
                            let struct_name = infer_aggregate_struct_name(function, place, path)?;
                            let mut inferred: Vec<(String, Type)> = Vec::new();
                            let mut i: usize = 0;
                            while i < fields.len()
                                decreases fields@.len() - i,
                            {
                                let field_name = &fields[i].0;
                                let already_known = known_field_type(&field_types, struct_name.as_str(), field_name.as_str()).is_some();
                                if !already_known {
                                    match infer_operand_type_for_layout(function, &fields[i].1, &field_types) {
                                        Some(ty) => inferred.push((field_name.clone(), ty)),
                                        None => {},
                                    }
                                }
                                i += 1;
                            }
                            if record_field_types(&mut field_types, struct_name, inferred) {
                                changed = true;
                            }
                        },
                        _ => {},
                    }
                    s += 1;
                }
                b += 1;
            }
            f += 1;
        }
        if !changed {
            break;
        }
        round += 1;
    }
    let mut resolved: Vec<(String, StructLayout)> = Vec::new();
    let mut visiting: Vec<String> = Vec::new();
    proof {
        assert(layouts_consistent(resolved@));
    }
    proof {
        assert(none ==> field_order@.len() == 0);
    }
    let mut n: usize = 0;
    while n < field_order.len()
        invariant
            n <= field_order@.len(),
            layouts_consistent(resolved@),
            visiting@.len() == 0,
            none == no_struct_literals(*program),
            none ==> field_order@.len() == 0 && resolved@.len() == 0,
            all_literals_recorded(*program, field_order@),
            forall|j: int| 0 <= j < n ==> #[trigger] find_struct(resolved@, field_order@[j].0@) is Some,
        decreases field_order@.len() - n,
    {
        let ghost r0 = resolved@;
        let name = field_order[n].0.clone();
        resolve_struct_layout(name.as_str(), &field_order, &field_types, &mut resolved, &mut visiting)?;
        proof {
            assert forall|j: int| 0 <= j < n + 1 implies #[trigger] find_struct(resolved@, field_order@[j].0@) is Some by {
                if j < n {
                    lemma_find_struct_extend(r0, resolved@, field_order@[j].0@);
                }
            }
        }
        n += 1;
    }
    proof {
        assert forall|g: int, c: int, t: int| #[trigger] literal_at(*program, g, c, t) implies find_struct(
            resolved@,
            literal_struct_at(*program, g, c, t),
        ) is Some by {
            let j = choose|j: int| 0 <= j < field_order@.len() && field_order@[j].0@ == literal_struct_at(*program, g, c, t);
            assert(find_struct(resolved@, field_order@[j].0@) is Some);
        }
    }
    Ok(TypeLayouts { structs: resolved })
}

} // verus!
