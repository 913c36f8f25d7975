//! Memory layout of ABI types: sizes, alignments and struct field offsets.

use vstd::prelude::*;
use crate::text::str_eq;

verus! {

#[derive(Debug, PartialEq, Eq)]
pub enum AbiType {
    Unit,
    Int,
    Float,
    Bool,
    Error,
    Pointer,
    Struct(StructLayout),
    Result(Box<AbiType>, Box<AbiType>),
}

#[derive(Debug, PartialEq, Eq)]
pub struct StructLayout {
    pub name: String,
    pub fields: Vec<StructField>,
}

#[derive(Debug, PartialEq, Eq)]
pub struct StructField {
    pub name: String,
    pub ty: AbiType,
}

#[derive(Debug, Clone, Copy, PartialEq, Eq, Structural)]
pub struct Layout {
    pub size: u32,
    pub align: u32,
}

#[derive(Debug, Clone, PartialEq, Eq)]
pub struct FieldLayout {
    pub name: String,
    pub offset: u32,
    pub layout: Layout,
}

#[derive(Debug, Clone, PartialEq, Eq)]
pub struct StructMemoryLayout {
    pub layout: Layout,
    pub fields: Vec<FieldLayout>,
}

/// `value` rounded up to a multiple of `align` (unchanged for alignments 0 and 1).
pub open spec fn align_up(value: int, align: int) -> int {
    if align <= 1 {
        value
    } else {
        ((value + align - 1) / align) * align
    }
}

/// A layout as a pair of mathematical integers (size, alignment).
pub open spec fn int_layout(size: int, align: int) -> (int, int) {
    (size, align)
}

/// The layout of a tagged union of `ok` and `err`: a one-byte tag, then the larger
/// payload at the larger alignment.
pub open spec fn result_of(ok: (int, int), err: (int, int)) -> (int, int) {
    let payload_align = if ok.1 >= err.1 { ok.1 } else { err.1 };
    let payload_size = if ok.0 >= err.0 { ok.0 } else { err.0 };
    let tag_aligned = align_up(1, payload_align);
    (align_up(tag_aligned + payload_size, payload_align), payload_align)
}

/// Size and alignment of an ABI type, over unbounded integers.
pub open spec fn type_layout(t: AbiType) -> (int, int)
    decreases t, 0nat,
{
    match t {
        AbiType::Unit => (0, 1),
        AbiType::Bool => (1, 1),
        AbiType::Int | AbiType::Float | AbiType::Error | AbiType::Pointer => (8, 8),
        AbiType::Struct(s) => struct_total(s.fields@, s.fields@.len() as int),
        AbiType::Result(ok, err) => result_of(type_layout(*ok), type_layout(*err)),
    }
}

/// Offset reached and alignment after laying out the first `n` fields.
pub open spec fn struct_prefix(fields: Seq<StructField>, n: int) -> (int, int)
    decreases fields, 1nat, n,
{
    if n <= 0 || n > fields.len() {
        (0, 1)
    } else {
        let prev = struct_prefix(fields, n - 1);
        let f = type_layout(fields[n - 1].ty);
        let offset = align_up(prev.0, f.1);
        (offset + f.0, if prev.1 >= f.1 { prev.1 } else { f.1 })
    }
}

/// Offset of field `i` (0-based) in a struct.
pub open spec fn field_offset(fields: Seq<StructField>, i: int) -> int {
    align_up(struct_prefix(fields, i).0, type_layout(fields[i].ty).1)
}

/// The total layout of a struct made of the first `n` fields.
pub open spec fn struct_total(fields: Seq<StructField>, n: int) -> (int, int)
    decreases fields, 2nat,
{
    let p = struct_prefix(fields, n);
    (align_up(p.0, p.1), p.1)
}

/// Every size and intermediate offset of the type, and those of all types inside
/// it, stay below `u32::MAX - 8`.
pub open spec fn layout_fits(t: AbiType) -> bool
    decreases t, 0nat,
{
    &&& type_layout(t).0 + 8 <= u32::MAX
    &&& match t {
        AbiType::Struct(s) => fields_fit(s.fields@, s.fields@.len() as int),
        AbiType::Result(ok, err) => layout_fits(*ok) && layout_fits(*err),
        _ => true,
    }
}

/// The first `n` field types all fit.
pub open spec fn fields_fit(fields: Seq<StructField>, n: int) -> bool
    decreases fields, 1nat, n,
{
    if n <= 0 || n > fields.len() {
        true
    } else {
        fields_fit(fields, n - 1) && layout_fits(fields[n - 1].ty)
    }
}

proof fn lemma_align_up_ge(v: int, a: int)
    requires
        v >= 0,
        a == 1 || a == 8,
    ensures
        v <= align_up(v, a) <= v + 7,
        align_up(v, a) % a == 0,
{
    if a == 8 {
        assert(v <= ((v + 7) / 8) * 8 <= v + 7) by (nonlinear_arith)
            requires v >= 0;
        assert((((v + 7) / 8) * 8) % 8 == 0) by (nonlinear_arith);
    }
}

/// Sizes are non-negative and alignments are 1 or 8.
pub proof fn lemma_type_layout_shape(t: AbiType)
    ensures
        type_layout(t).0 >= 0,
        type_layout(t).1 == 1 || type_layout(t).1 == 8,
    decreases t, 0nat,
{
    match t {
        AbiType::Struct(s) => {
            lemma_prefix_shape(s.fields@, s.fields@.len() as int);
            let p = struct_prefix(s.fields@, s.fields@.len() as int);
            lemma_align_up_ge(p.0, p.1);
            assert(type_layout(t) == struct_total(s.fields@, s.fields@.len() as int));
            assert(struct_total(s.fields@, s.fields@.len() as int) == (align_up(p.0, p.1), p.1));
        },
        AbiType::Result(ok, err) => {
            lemma_type_layout_shape(*ok);
            lemma_type_layout_shape(*err);
            let pa = if type_layout(*ok).1 >= type_layout(*err).1 { type_layout(*ok).1 } else { type_layout(*err).1 };
            let ps = if type_layout(*ok).0 >= type_layout(*err).0 { type_layout(*ok).0 } else { type_layout(*err).0 };
            lemma_align_up_ge(1, pa);
            lemma_align_up_ge(align_up(1, pa) + ps, pa);
        },
        _ => {},
    }
}

proof fn lemma_prefix_shape(fields: Seq<StructField>, n: int)
    ensures
        struct_prefix(fields, n).0 >= 0,
        struct_prefix(fields, n).1 == 1 || struct_prefix(fields, n).1 == 8,
    decreases fields, 1nat, n,
{
    if n > 0 && n <= fields.len() {
        lemma_prefix_shape(fields, n - 1);
        lemma_type_layout_shape(fields[n - 1].ty);
        let prev = struct_prefix(fields, n - 1);
        lemma_align_up_ge(prev.0, type_layout(fields[n - 1].ty).1);
    }
}

/// Offsets only grow as fields are added.
proof fn lemma_prefix_monotone(fields: Seq<StructField>, i: int, n: int)
    requires
        0 <= i <= n <= fields.len(),
    ensures
        struct_prefix(fields, i).0 <= struct_prefix(fields, n).0,
        struct_prefix(fields, i).0 <= field_offset(fields, i) || i == n,
        i < n ==> field_offset(fields, i) + type_layout(fields[i].ty).0 <= struct_prefix(fields, n).0,
    decreases n - i,
{
    if i < n {
        lemma_prefix_monotone(fields, i + 1, n);
        lemma_prefix_shape(fields, i);
        lemma_type_layout_shape(fields[i].ty);
        lemma_align_up_ge(struct_prefix(fields, i).0, type_layout(fields[i].ty).1);
    }
}

proof fn lemma_fields_fit_each(fields: Seq<StructField>, i: int, n: int)
    requires
        fields_fit(fields, n),
        0 <= i < n <= fields.len(),
    ensures
        layout_fits(fields[i].ty),
        fields_fit(fields, i),
    decreases n - i,
{
    if i + 1 < n {
        lemma_fields_fit_each(fields, i, n - 1);
    }
}

impl Layout {
    pub fn new(size: u32, align: u32) -> (l: Self)
        ensures
            l.size == size,
            l.align == align,
    {
        Layout { size, align }
    }
}

pub fn align_to(value: u32, align: u32) -> (r: u32)
    requires
        align > 1 ==> value + align - 1 <= u32::MAX,
    ensures
        r == align_up(value as int, align as int),
{
    if align <= 1 {
        value
    } else {
        assert(((value + align - 1) / (align as int)) * align <= value + align - 1) by (nonlinear_arith)
            requires align > 1, value + align - 1 >= 0;
        ((value + (align - 1)) / align) * align
    }
}

pub fn result_layout(ok: Layout, err: Layout) -> (r: Layout)
    requires
        ok.align == 1 || ok.align == 8,
        err.align == 1 || err.align == 8,
        result_of((ok.size as int, ok.align as int), (err.size as int, err.align as int)).0 + 8
            <= u32::MAX,
    ensures
        (r.size as int, r.align as int) == result_of(
            (ok.size as int, ok.align as int),
            (err.size as int, err.align as int),
        ),
{
    let payload_align = if ok.align >= err.align { ok.align } else { err.align };
    let payload_size = if ok.size >= err.size { ok.size } else { err.size };
    let tag_size = 1u32;
    proof {
        lemma_align_up_ge(1, payload_align as int);
        lemma_align_up_ge(align_up(1, payload_align as int) + payload_size, payload_align as int);
    }
    let tag_aligned = align_to(tag_size, payload_align);
    Layout::new(align_to(tag_aligned + payload_size, payload_align), payload_align)
}

impl AbiType {
    pub fn layout(&self) -> (l: Layout)
        requires
            layout_fits(*self),
        ensures
            (l.size as int, l.align as int) == type_layout(*self),
        decreases *self, 1nat,
    {
        proof {
            lemma_type_layout_shape(*self);
        }
        match self {
            AbiType::Unit => Layout::new(0, 1),
            AbiType::Bool => Layout::new(1, 1),
            AbiType::Int | AbiType::Float | AbiType::Error | AbiType::Pointer => Layout::new(8, 8),
            AbiType::Struct(struct_layout) => struct_layout.memory_layout().layout,
            AbiType::Result(ok, err) => {
                proof {
                    lemma_type_layout_shape(**ok);
                    lemma_type_layout_shape(**err);
                }
                result_layout(ok.layout(), err.layout())
            },
        }
    }
}

/// The field layouts of a struct: each field's name, offset and layout.
pub open spec fn field_layouts_of(fields: Seq<StructField>, laid: Seq<FieldLayout>) -> bool {
    &&& laid.len() == fields.len()
    &&& forall|i: int|
        #![trigger laid[i]]
        0 <= i < fields.len() ==> {
            &&& laid[i].name@ == fields[i].name@
            &&& laid[i].offset as int == field_offset(fields, i)
            &&& (laid[i].layout.size as int, laid[i].layout.align as int) == type_layout(
                fields[i].ty,
            )
        }
}

impl StructLayout {
    pub fn new(name: &str, fields: Vec<StructField>) -> (s: Self)
        ensures
            s.name@ == name@,
            s.fields@ == fields@,
    {
        StructLayout { name: crate::text::string_from_chars(&crate::text::chars_of(name)), fields }
    }

    pub fn memory_layout(&self) -> (m: StructMemoryLayout)
        requires
            layout_fits(AbiType::Struct(*self)),
        ensures
            (m.layout.size as int, m.layout.align as int) == struct_total(
                self.fields@,
                self.fields@.len() as int,
            ),
            field_layouts_of(self.fields@, m.fields@),
        decreases AbiType::Struct(*self), 0nat,
    {
        let ghost fs = self.fields@;
        let ghost n = fs.len() as int;
        proof {
            lemma_prefix_shape(fs, n);
        }
        let mut offset = 0u32;
        let mut align = 1u32;
        let mut fields: Vec<FieldLayout> = Vec::new();
        let mut i: usize = 0;
        while i < self.fields.len()
            invariant
                fs == self.fields@,
                n == fs.len(),
                0 <= i <= n,
                fields_fit(fs, n),
                struct_total(fs, n).0 + 8 <= u32::MAX,
                (offset as int, align as int) == struct_prefix(fs, i as int),
                fields@.len() == i,
                forall|j: int|
                    #![trigger fields@[j]]
                    0 <= j < i ==> {
                        &&& fields@[j].name@ == fs[j].name@
                        &&& fields@[j].offset as int == field_offset(fs, j)
                        &&& (fields@[j].layout.size as int, fields@[j].layout.align as int)
                            == type_layout(fs[j].ty)
                    },
            decreases n - i,
        {
            let field = &self.fields[i];
            proof {
                lemma_fields_fit_each(fs, i as int, n);
                lemma_prefix_monotone(fs, i as int, n);
                lemma_prefix_monotone(fs, (i + 1) as int, n);
                lemma_prefix_shape(fs, n);
                lemma_prefix_shape(fs, i as int);
                lemma_type_layout_shape(fs[i as int].ty);
                lemma_align_up_ge(struct_prefix(fs, n).0, struct_prefix(fs, n).1);
            }
            assert(decreases_to!(AbiType::Struct(*self) => fs[i as int].ty)) by {
                let t = AbiType::Struct(*self);
                assert(t->Struct_0 == *self);
                assert(decreases_to!(t => t->Struct_0));
                assert(decreases_to!(*self => self.fields));
                assert(decreases_to!(self.fields => self.fields@));
                assert(decreases_to!(self.fields@ => self.fields@[i as int]));
                assert(decreases_to!(self.fields@[i as int] => self.fields@[i as int].ty));
            }
            let field_layout = field.ty.layout();
            offset = align_to(offset, field_layout.align);
            align = if align >= field_layout.align { align } else { field_layout.align };
            fields.push(FieldLayout { name: field.name.clone(), offset, layout: field_layout });
            offset = offset + field_layout.size;
            i += 1;
        }
        proof {
            lemma_prefix_shape(fs, n);
            lemma_align_up_ge(offset as int, align as int);
        }
        StructMemoryLayout { layout: Layout::new(align_to(offset, align), align), fields }
    }
}

impl StructMemoryLayout {
    /// The first field layout with the given name.
    pub fn field(&self, name: &str) -> (r: Option<&FieldLayout>)
        ensures
            r is None <==> forall|i: int| 0 <= i < self.fields@.len() ==> self.fields@[i].name@ != name@,
            r matches Some(f) ==> exists|i: int|
                0 <= i < self.fields@.len() && *f == self.fields@[i] && f.name@ == name@ && forall|
                    j: int,
                | 0 <= j < i ==> self.fields@[j].name@ != name@,
    {
        let mut i: usize = 0;
        while i < self.fields.len()
            invariant
                i <= self.fields@.len(),
                forall|j: int| 0 <= j < i ==> self.fields@[j].name@ != name@,
            decreases self.fields@.len() - i,
        {
            if str_eq(self.fields[i].name.as_str(), name) {
                return Some(&self.fields[i]);
            }
            i += 1;
        }
        None
    }
}

} // verus!
