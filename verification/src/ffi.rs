//! Foreign-function interfaces: extern blocks, the ABI types they may use, ownership
//! rules at the boundary, and sandbox policies.

use vstd::prelude::*;
use crate::abi::header::{convention_debug_name, convention_name, link_error};
use crate::abi::{AbiHeader, AbiTarget, AbiType, CallingConvention, Stability, StructField, StructLayout};
use crate::abi::calling_conv::target_convention;
use crate::text::{chars_of, owned, push_str_chars, str_eq, string_from_chars};

verus! {

#[derive(Debug, Clone, PartialEq, Eq)]
pub struct FfiError {
    pub message: String,
}

impl FfiError {
    pub fn new(message: &str) -> (e: Self)
        ensures
            e.message@ == message@,
    {
        FfiError { message: owned(message) }
    }

    fn from_chars(message: &Vec<char>) -> (e: Self)
        ensures
            e.message@ == message@,
    {
        FfiError { message: string_from_chars(message) }
    }
}

#[derive(Debug, PartialEq, Eq)]
pub struct ExternParam {
    pub name: String,
    pub ty: AbiType,
}

#[derive(Debug, PartialEq, Eq)]
pub struct ExternFunction {
    pub name: String,
    pub params: Vec<ExternParam>,
    pub return_type: AbiType,
    pub calling_convention: CallingConvention,
    pub stability: Stability,
}

#[derive(Debug, PartialEq, Eq)]
pub struct ExternBlock {
    pub name: String,
    pub target: AbiTarget,
    pub header: AbiHeader,
    pub functions: Vec<ExternFunction>,
    pub exported_types: Vec<StructLayout>,
}

/// Why a function cannot be exported through a block for `target`, or `None`.
pub open spec fn function_error(f: ExternFunction, target: AbiTarget) -> Option<Seq<char>> {
    if f.calling_convention != CallingConvention::C && f.calling_convention != target_convention(target) {
        Some("function `"@ + f.name@ + "` uses incompatible calling convention "@ + convention_debug_name(f.calling_convention))
    } else if !(f.stability is Stable || f.stability is Deprecated) {
        Some("function `"@ + f.name@ + "` is not stable enough for FFI export"@)
    } else {
        None
    }
}

/// The first function, from index `i` on, that cannot be exported, with its reason.
pub open spec fn functions_error(fs: Seq<ExternFunction>, target: AbiTarget, i: int) -> Option<Seq<char>>
    decreases fs.len() - i,
{
    if i < 0 || i >= fs.len() {
        None
    } else {
        match function_error(fs[i], target) {
            Some(m) => Some(m),
            None => functions_error(fs, target, i + 1),
        }
    }
}

/// Why a block cannot be linked: its header first, then its functions in order.
pub open spec fn block_error(b: ExternBlock) -> Option<Seq<char>> {
    match link_error(b.header, b.target, true) {
        Some(m) => Some(m),
        None => functions_error(b.functions@, b.target, 0),
    }
}

/// Why a block's types cannot cross the boundary. Every ABI type is supported, so only
/// the block itself can fail.
pub open spec fn block_types_error(b: ExternBlock) -> Option<Seq<char>> {
    block_error(b)
}

impl ExternBlock {
    /// A stable block of C functions for the target.
    pub fn stable_c(name: &str, target: AbiTarget, functions: Vec<ExternFunction>) -> (b: Self)
        ensures
            b.name@ == name@,
            b.target == target,
            b.header.magic@ == crate::abi::header::abi_magic(),
            b.header.version == crate::abi::version::current_version(),
            b.header.target == target,
            b.header.calling_convention == CallingConvention::C,
            b.header.stability == Stability::Stable,
            b.header.flags == 0,
            b.functions@ == functions@,
            b.exported_types@.len() == 0,
    {
        let mut header = AbiHeader::current(target, Stability::Stable);
        header.calling_convention = CallingConvention::C;
        ExternBlock { name: owned(name), target, header, functions, exported_types: Vec::new() }
    }

    /// Checks that the header can be linked as stable for the target, and that every
    /// function uses C or the target's convention and is stable.
    pub fn validate(&self) -> (r: Result<(), FfiError>)
        ensures
            r is Ok <==> block_error(*self) is None,
            r matches Err(e) ==> Some(e.message@) == block_error(*self),
    {
        match self.header.ensure_link_compatible(self.target, true) {
            Ok(()) => {},
            Err(error) => return Err(FfiError { message: error.message }),
        }
        let mut i: usize = 0;
        while i < self.functions.len()
            invariant
                i <= self.functions@.len(),
                link_error(self.header, self.target, true) is None,
                functions_error(self.functions@, self.target, 0) == functions_error(self.functions@, self.target, i as int),
            decreases self.functions@.len() - i,
        {
            let function = &self.functions[i];
            let target_cc = CallingConvention::for_target(self.target);
            if function.calling_convention != CallingConvention::C && function.calling_convention != target_cc {
                let mut message = chars_of("function `");
                push_str_chars(&mut message, function.name.as_str());
                push_str_chars(&mut message, "` uses incompatible calling convention ");
                push_str_chars(&mut message, convention_name(function.calling_convention));
                return Err(FfiError::from_chars(&message));
            }
            if !function.stability.allows_external_linking() {
                let mut message = chars_of("function `");
                push_str_chars(&mut message, function.name.as_str());
                push_str_chars(&mut message, "` is not stable enough for FFI export");
                return Err(FfiError::from_chars(&message));
            }
            i += 1;
        }
        Ok(())
    }

    /// Validates the block, then that every type it exports or its functions use can cross
    /// the boundary.
    pub fn validate_against(&self, type_map: &FfiTypeMap) -> (r: Result<(), FfiError>)
        ensures
            r is Ok <==> block_types_error(*self) is None,
            r matches Err(e) ==> Some(e.message@) == block_types_error(*self),
    {
        match self.validate() {
            Ok(()) => {},
            Err(e) => return Err(e),
        }
        let mut i: usize = 0;
        while i < self.exported_types.len()
            invariant
                i <= self.exported_types@.len(),
            decreases self.exported_types@.len() - i,
        {
            let layout = &self.exported_types[i];
            let mut j: usize = 0;
            while j < layout.fields.len()
                invariant
                    j <= layout.fields@.len(),
                decreases layout.fields@.len() - j,
            {
                let field = &layout.fields[j];
                if !type_map.supports_abi_type(&field.ty) {
                    let mut message = chars_of("exported type `");
                    push_str_chars(&mut message, layout.name.as_str());
                    push_str_chars(&mut message, "` contains unsupported field `");
                    push_str_chars(&mut message, field.name.as_str());
                    push_str_chars(&mut message, "`");
                    return Err(FfiError::from_chars(&message));
                }
                j += 1;
            }
            i += 1;
        }
        let mut k: usize = 0;
        while k < self.functions.len()
            invariant
                k <= self.functions@.len(),
            decreases self.functions@.len() - k,
        {
            let function = &self.functions[k];
            if !type_map.supports_abi_type(&function.return_type) {
                let mut message = chars_of("function `");
                push_str_chars(&mut message, function.name.as_str());
                push_str_chars(&mut message, "` returns an unsupported ABI type");
                return Err(FfiError::from_chars(&message));
            }
            let mut p: usize = 0;
            while p < function.params.len()
                invariant
                    p <= function.params@.len(),
                decreases function.params@.len() - p,
            {
                let param = &function.params[p];
                if !type_map.supports_abi_type(&param.ty) {
                    let mut message = chars_of("parameter `");
                    push_str_chars(&mut message, param.name.as_str());
                    push_str_chars(&mut message, "` in function `");
                    push_str_chars(&mut message, function.name.as_str());
                    push_str_chars(&mut message, "` uses an unsupported ABI type");
                    return Err(FfiError::from_chars(&message));
                }
                p += 1;
            }
            k += 1;
        }
        Ok(())
    }
}

/// The ABI types known by name, a later entry under a name replacing the earlier one.
#[derive(Debug, PartialEq, Eq)]
pub struct FfiTypeMap {
    entries: Vec<(String, AbiType)>,
}

/// Whether the names are pairwise distinct.
pub open spec fn distinct_names<T>(entries: Seq<(String, T)>) -> bool {
    forall|i: int, j: int| 0 <= i < entries.len() && 0 <= j < entries.len() && i != j ==> entries[i].0@ != entries[j].0@
}

impl FfiTypeMap {
    /// The names in the map, in the order they were first inserted.
    pub closed spec fn names(&self) -> Seq<Seq<char>> {
        self.entries@.map_values(|e: (String, AbiType)| e.0@)
    }

    /// The type under the name at index `i` of `names()`.
    pub closed spec fn type_at(&self, i: int) -> AbiType {
        self.entries@[i].1
    }

    #[verifier::type_invariant]
    spec fn inv(self) -> bool {
        distinct_names(self.entries@)
    }

    /// The core types: `int`, `float`, `bool`, `Error`, `ptr` and `unit`.
    pub fn mantelogue_core() -> (m: Self)
        ensures
            m.names() == seq!["int"@, "float"@, "bool"@, "Error"@, "ptr"@, "unit"@],
            m.type_at(0) == AbiType::Int,
            m.type_at(1) == AbiType::Float,
            m.type_at(2) == AbiType::Bool,
            m.type_at(3) == AbiType::Error,
            m.type_at(4) == AbiType::Pointer,
            m.type_at(5) == AbiType::Unit,
    {
        proof {
            reveal_strlit("int");
            reveal_strlit("float");
            reveal_strlit("bool");
            reveal_strlit("Error");
            reveal_strlit("ptr");
            reveal_strlit("unit");
        }
        let mut entries: Vec<(String, AbiType)> = Vec::new();
        entries.push((owned("int"), AbiType::Int));
        entries.push((owned("float"), AbiType::Float));
        entries.push((owned("bool"), AbiType::Bool));
        entries.push((owned("Error"), AbiType::Error));
        entries.push((owned("ptr"), AbiType::Pointer));
        entries.push((owned("unit"), AbiType::Unit));
        proof {
            let names = entries@.map_values(|e: (String, AbiType)| e.0@);
            assert(names =~= seq!["int"@, "float"@, "bool"@, "Error"@, "ptr"@, "unit"@]);
            assert("bool"@[0] != "unit"@[0]);
            assert("int"@[0] != "ptr"@[0]);
            assert("float"@[0] != "Error"@[0]);
            assert(distinct_names(entries@)) by {
                assert forall|i: int, j: int| 0 <= i < entries@.len() && 0 <= j < entries@.len() && i != j
                    implies entries@[i].0@ != entries@[j].0@ by {
                    assert(names[i] == entries@[i].0@);
                    assert(names[j] == entries@[j].0@);
                }
            }
        }
        let m = FfiTypeMap { entries };
        assert(m.names() =~= seq!["int"@, "float"@, "bool"@, "Error"@, "ptr"@, "unit"@]);
        m
    }

    /// Where `name` is in the map.
    fn find(&self, name: &str) -> (r: Option<usize>)
        ensures
            r is None <==> !self.names().contains(name@),
            r matches Some(i) ==> i < self.names().len() && self.names()[i as int] == name@,
    {
        let mut i: usize = 0;
        while i < self.entries.len()
            invariant
                i <= self.entries@.len(),
                forall|k: int| 0 <= k < i ==> self.names()[k] != name@,
            decreases self.entries@.len() - i,
        {
            if str_eq(self.entries[i].0.as_str(), name) {
                assert(self.names()[i as int] == name@);
                return Some(i);
            }
            i += 1;
        }
        proof {
            if self.names().contains(name@) {
                let k = choose|k: int| 0 <= k < self.names().len() && self.names()[k] == name@;
                assert(self.names()[k] == name@);
            }
        }
        None
    }

    /// Records `ty` under `name`, giving back the type it replaces.
    pub fn insert(&mut self, name: &str, ty: AbiType) -> (r: Option<AbiType>)
        ensures
            old(self).names().contains(name@) ==> ({
                let i = old(self).names().index_of(name@);
                &&& r == Some(old(self).type_at(i))
                &&& final(self).names() == old(self).names()
                &&& final(self).type_at(i) == ty
                &&& forall|j: int| 0 <= j < old(self).names().len() && j != i ==> final(self).type_at(j) == old(self).type_at(j)
            }),
            !old(self).names().contains(name@) ==> {
                &&& r is None
                &&& final(self).names() == old(self).names().push(name@)
                &&& final(self).type_at(old(self).names().len() as int) == ty
                &&& forall|j: int| 0 <= j < old(self).names().len() ==> final(self).type_at(j) == old(self).type_at(j)
            },
    {
        proof {
            use_type_invariant(&*self);
        }
        let ghost before = self.entries@;
        match self.find(name) {
            Some(i) => {
                proof {
                    let names = self.names();
                    assert(names.index_of(name@) == i as int) by {
                        assert(names.contains(name@));
                        let k = names.index_of(name@);
                        assert(names[k] == name@);
                        if k != i {
                            assert(self.entries@[k].0@ == self.entries@[i as int].0@);
                        }
                    }
                }
                let mut entries = Vec::new();
                std::mem::swap(&mut entries, &mut self.entries);
                let mut entry = (owned(name), ty);
                let mut old_entry = entries.remove(i);
                std::mem::swap(&mut entry, &mut old_entry);
                entries.insert(i, old_entry);
                proof {
                    let now = entries@;
                    assert(now =~= before.update(i as int, now[i as int]));
                    assert(now.map_values(|e: (String, AbiType)| e.0@) =~= before.map_values(|e: (String, AbiType)| e.0@));
                }
                self.entries = entries;
                Some(entry.1)
            },
            None => {
                let mut entries = Vec::new();
                std::mem::swap(&mut entries, &mut self.entries);
                entries.push((owned(name), ty));
                proof {
                    let now = entries@.map_values(|e: (String, AbiType)| e.0@);
                    let old_names = before.map_values(|e: (String, AbiType)| e.0@);
                    assert(now =~= old_names.push(name@));
                    assert(distinct_names(entries@)) by {
                        assert forall|a: int, b: int| 0 <= a < entries@.len() && 0 <= b < entries@.len() && a != b
                            implies entries@[a].0@ != entries@[b].0@ by {
                            assert(now[a] == entries@[a].0@);
                            assert(now[b] == entries@[b].0@);
                            if a < before.len() && b < before.len() {
                                assert(entries@[a] == before[a]);
                                assert(entries@[b] == before[b]);
                            } else if a < before.len() {
                                assert(old_names[a] == now[a]);
                            } else {
                                assert(old_names[b] == now[b]);
                            }
                        }
                    }
                }
                self.entries = entries;
                None
            },
        }
    }

    /// The type under `name`.
    pub fn resolve(&self, name: &str) -> (r: Option<&AbiType>)
        ensures
            r is Some <==> self.names().contains(name@),
            r matches Some(t) ==> *t == self.type_at(self.names().index_of(name@)),
    {
        proof {
            use_type_invariant(self);
        }
        match self.find(name) {
            Some(i) => {
                proof {
                    let names = self.names();
                    let k = names.index_of(name@);
                    assert(names[k] == name@);
                    if k != i {
                        assert(self.entries@[k].0@ == self.entries@[i as int].0@);
                    }
                }
                Some(&self.entries[i].1)
            },
            None => None,
        }
    }

    /// Whether values of the type can cross the boundary: every ABI type, including
    /// structs and results, is made of types that can.
    pub fn supports_abi_type(&self, ty: &AbiType) -> (r: bool)
        ensures
            r,
        decreases ty,
    {
        match ty {
            AbiType::Unit | AbiType::Int | AbiType::Float | AbiType::Bool | AbiType::Error | AbiType::Pointer => true,
            AbiType::Struct(layout) => {
                let mut i: usize = 0;
                while i < layout.fields.len()
                    invariant
                        i <= layout.fields@.len(),
                        *ty == AbiType::Struct(*layout),
                    decreases layout.fields@.len() - i,
                {
                    proof {
                        let field = layout.fields@[i as int];
                        assert(decreases_to!(*layout => layout.fields));
                        assert(decreases_to!(layout.fields => layout.fields@));
                        assert(decreases_to!(layout.fields@ => field));
                        assert(decreases_to!(field => field.ty));
                        assert(*layout == ty->Struct_0);
                        assert(decreases_to!(*ty => ty->Struct_0));
                    }
                    if !self.supports_abi_type(&layout.fields[i].ty) {
                        return false;
                    }
                    i += 1;
                }
                true
            },
            AbiType::Result(ok, err) => self.supports_abi_type(ok) && self.supports_abi_type(err),
        }
    }
}

impl Default for FfiTypeMap {
    fn default() -> (m: Self)
        ensures
            m.names() == seq!["int"@, "float"@, "bool"@, "Error"@, "ptr"@, "unit"@],
    {
        FfiTypeMap::mantelogue_core()
    }
}

/// Whether two ABI types are the same: the same kind, and for structs the same name and
/// the same fields in order, for results the same payload types.
pub open spec fn same_type(a: AbiType, b: AbiType) -> bool
    decreases a, 0nat,
{
    match a {
        AbiType::Unit => b is Unit,
        AbiType::Int => b is Int,
        AbiType::Float => b is Float,
        AbiType::Bool => b is Bool,
        AbiType::Error => b is Error,
        AbiType::Pointer => b is Pointer,
        AbiType::Struct(x) => match b {
            AbiType::Struct(y) => x.name@ == y.name@ && x.fields@.len() == y.fields@.len()
                && same_fields(x.fields@, y.fields@, x.fields@.len() as int),
            _ => false,
        },
        AbiType::Result(o, e) => match b {
            AbiType::Result(p, q) => same_type(*o, *p) && same_type(*e, *q),
            _ => false,
        },
    }
}

/// Whether the first `n` fields have the same names and types.
pub open spec fn same_fields(xs: Seq<StructField>, ys: Seq<StructField>, n: int) -> bool
    decreases xs, 1nat, n,
{
    if n <= 0 || n > xs.len() || n > ys.len() {
        true
    } else {
        same_fields(xs, ys, n - 1) && xs[n - 1].name@ == ys[n - 1].name@ && same_type(xs[n - 1].ty, ys[n - 1].ty)
    }
}

proof fn lemma_same_fields_at(xs: Seq<StructField>, ys: Seq<StructField>, n: int, i: int)
    requires
        same_fields(xs, ys, n),
        0 <= i < n <= xs.len(),
        n <= ys.len(),
    ensures
        xs[i].name@ == ys[i].name@ && same_type(xs[i].ty, ys[i].ty),
    decreases n,
{
    if i < n - 1 {
        lemma_same_fields_at(xs, ys, n - 1, i);
    }
}

/// Whether two ABI types are the same.
pub fn abi_type_eq(a: &AbiType, b: &AbiType) -> (r: bool)
    ensures
        r == same_type(*a, *b),
    decreases *a, 1nat,
{
    match a {
        AbiType::Unit => matches!(b, AbiType::Unit),
        AbiType::Int => matches!(b, AbiType::Int),
        AbiType::Float => matches!(b, AbiType::Float),
        AbiType::Bool => matches!(b, AbiType::Bool),
        AbiType::Error => matches!(b, AbiType::Error),
        AbiType::Pointer => matches!(b, AbiType::Pointer),
        AbiType::Struct(x) => match b {
            AbiType::Struct(y) => {
                if !str_eq(x.name.as_str(), y.name.as_str()) || x.fields.len() != y.fields.len() {
                    return false;
                }
                let mut i: usize = 0;
                while i < x.fields.len()
                    invariant
                        i <= x.fields@.len(),
                        x.fields@.len() == y.fields@.len(),
                        *a == AbiType::Struct(*x),
                        *b == AbiType::Struct(*y),
                        same_fields(x.fields@, y.fields@, i as int),
                    decreases x.fields@.len() - i,
                {
                    proof {
                        let field = x.fields@[i as int];
                        assert(decreases_to!(*a => a->Struct_0));
                        assert(decreases_to!(*x => x.fields));
                        assert(decreases_to!(x.fields => x.fields@));
                        assert(decreases_to!(x.fields@ => field));
                        assert(decreases_to!(field => field.ty));
                    }
                    if !str_eq(x.fields[i].name.as_str(), y.fields[i].name.as_str()) || !abi_type_eq(&x.fields[i].ty, &y.fields[i].ty) {
                        proof {
                            if same_type(*a, *b) {
                                lemma_same_fields_at(x.fields@, y.fields@, x.fields@.len() as int, i as int);
                            }
                        }
                        return false;
                    }
                    i += 1;
                }
                true
            },
            _ => false,
        },
        AbiType::Result(o, e) => match b {
            AbiType::Result(p, q) => abi_type_eq(o, p) && abi_type_eq(e, q),
            _ => false,
        },
    }
}

/// How a value's ownership passes across the boundary.
#[derive(Debug, Clone, Copy, PartialEq, Eq, Structural)]
pub enum OwnershipPolicy {
    Copy,
    Borrowed,
    OwnedByCaller,
    OwnedByCallee,
    Handle,
}

#[derive(Debug, PartialEq, Eq)]
pub struct OwnershipRule {
    pub ty: AbiType,
    pub policy: OwnershipPolicy,
}

#[derive(Debug, PartialEq, Eq)]
pub struct OwnershipBridge {
    pub params: Vec<OwnershipRule>,
    pub return_rule: Option<OwnershipRule>,
}

impl Default for OwnershipBridge {
    fn default() -> (b: Self)
        ensures
            b.params@.len() == 0,
            b.return_rule is None,
    {
        OwnershipBridge { params: Vec::new(), return_rule: None }
    }
}

/// ` for `name`` when a parameter is named, nothing for the return value.
pub open spec fn for_param(param: Option<Seq<char>>) -> Seq<char> {
    match param {
        Some(n) => " for `"@ + n + "`"@,
        None => Seq::empty(),
    }
}

/// Why a policy cannot carry a value of the type, or `None`: pointers cannot be copied
/// and structs cannot be passed as opaque handles.
pub open spec fn policy_error(ty: AbiType, policy: OwnershipPolicy, function: Seq<char>, param: Option<Seq<char>>) -> Option<Seq<char>> {
    if ty is Pointer && policy is Copy {
        Some("pointer values in `"@ + function + "` must use borrowed, owned, or handle ownership"@ + for_param(param))
    } else if ty is Struct && policy is Handle {
        Some("struct values in `"@ + function + "` cannot be passed as opaque handles"@ + for_param(param))
    } else {
        None
    }
}

pub fn validate_policy(ty: &AbiType, policy: OwnershipPolicy, function: &str, param: Option<&str>) -> (r: Result<(), FfiError>)
    ensures
        r is Ok <==> policy_error(*ty, policy, function@, match param { Some(p) => Some(p@), None => None }) is None,
        r matches Err(e) ==> Some(e.message@) == policy_error(*ty, policy, function@, match param { Some(p) => Some(p@), None => None }),
{
    let is_pointer_copy = matches!(ty, AbiType::Pointer) && matches!(policy, OwnershipPolicy::Copy);
    let is_struct_handle = matches!(ty, AbiType::Struct(_)) && matches!(policy, OwnershipPolicy::Handle);
    if !is_pointer_copy && !is_struct_handle {
        return Ok(());
    }
    let mut message = if is_pointer_copy { chars_of("pointer values in `") } else { chars_of("struct values in `") };
    push_str_chars(&mut message, function);
    if is_pointer_copy {
        push_str_chars(&mut message, "` must use borrowed, owned, or handle ownership");
    } else {
        push_str_chars(&mut message, "` cannot be passed as opaque handles");
    }
    match param {
        Some(name) => {
            push_str_chars(&mut message, " for `");
            push_str_chars(&mut message, name);
            push_str_chars(&mut message, "`");
        },
        None => {},
    }
    Err(FfiError::from_chars(&message))
}

/// Why the bridge does not fit the function, or `None`: one rule per parameter, each for
/// the parameter's type and with a policy that can carry it, then the same for the
/// return rule when there is one.
pub open spec fn bridge_error(b: OwnershipBridge, f: ExternFunction) -> Option<Seq<char>> {
    if b.params@.len() != f.params@.len() {
        Some("ownership bridge for `"@ + f.name@ + "` expects "@ + crate::text::decimal(f.params@.len())
            + " params, found "@ + crate::text::decimal(b.params@.len()))
    } else {
        match params_error(b.params@, f.params@, f.name@, 0) {
            Some(m) => Some(m),
            None => match b.return_rule {
                None => None,
                Some(rule) => if !same_type(f.return_type, rule.ty) {
                    Some("ownership rule for return type of `"@ + f.name@ + "` does not match its ABI type"@)
                } else {
                    policy_error(f.return_type, rule.policy, f.name@, None)
                },
            },
        }
    }
}

/// The first parameter, from index `i` on, whose rule does not fit it.
pub open spec fn params_error(rules: Seq<OwnershipRule>, params: Seq<ExternParam>, function: Seq<char>, i: int) -> Option<Seq<char>>
    decreases params.len() - i,
{
    if i < 0 || i >= params.len() || i >= rules.len() {
        None
    } else if !same_type(params[i].ty, rules[i].ty) {
        Some("ownership rule for parameter `"@ + params[i].name@ + "` in `"@ + function + "` does not match its ABI type"@)
    } else {
        match policy_error(params[i].ty, rules[i].policy, function, Some(params[i].name@)) {
            Some(m) => Some(m),
            None => params_error(rules, params, function, i + 1),
        }
    }
}

impl OwnershipBridge {
    pub fn validate_for(&self, function: &ExternFunction) -> (r: Result<(), FfiError>)
        ensures
            r is Ok <==> bridge_error(*self, *function) is None,
            r matches Err(e) ==> Some(e.message@) == bridge_error(*self, *function),
    {
        if self.params.len() != function.params.len() {
            let mut message = chars_of("ownership bridge for `");
            push_str_chars(&mut message, function.name.as_str());
            push_str_chars(&mut message, "` expects ");
            let mut expected = crate::text::decimal_chars(function.params.len() as u64);
            message.append(&mut expected);
            push_str_chars(&mut message, " params, found ");
            let mut found = crate::text::decimal_chars(self.params.len() as u64);
            message.append(&mut found);
            return Err(FfiError::from_chars(&message));
        }
        let mut i: usize = 0;
        while i < function.params.len()
            invariant
                i <= function.params@.len(),
                function.params@.len() == self.params@.len(),
                params_error(self.params@, function.params@, function.name@, 0)
                    == params_error(self.params@, function.params@, function.name@, i as int),
            decreases function.params@.len() - i,
        {
            let param = &function.params[i];
            let rule = &self.params[i];
            if !abi_type_eq(&param.ty, &rule.ty) {
                let mut message = chars_of("ownership rule for parameter `");
                push_str_chars(&mut message, param.name.as_str());
                push_str_chars(&mut message, "` in `");
                push_str_chars(&mut message, function.name.as_str());
                push_str_chars(&mut message, "` does not match its ABI type");
                return Err(FfiError::from_chars(&message));
            }
            match validate_policy(&param.ty, rule.policy, function.name.as_str(), Some(param.name.as_str())) {
                Ok(()) => {},
                Err(e) => return Err(e),
            }
            i += 1;
        }
        match &self.return_rule {
            None => Ok(()),
            Some(rule) => {
                if !abi_type_eq(&function.return_type, &rule.ty) {
                    let mut message = chars_of("ownership rule for return type of `");
                    push_str_chars(&mut message, function.name.as_str());
                    push_str_chars(&mut message, "` does not match its ABI type");
                    return Err(FfiError::from_chars(&message));
                }
                validate_policy(&function.return_type, rule.policy, function.name.as_str(), None)
            },
        }
    }
}

#[derive(Debug, Clone, Copy, PartialEq, Eq, Structural)]
pub struct SandboxPolicy {
    pub allow_filesystem: bool,
    pub allow_network: bool,
    pub allow_process: bool,
    pub deterministic_only: bool,
}

impl Default for SandboxPolicy {
    /// Nothing allowed, and deterministic only.
    fn default() -> (p: Self)
        ensures
            p == (SandboxPolicy { allow_filesystem: false, allow_network: false, allow_process: false, deterministic_only: true }),
    {
        SandboxPolicy { allow_filesystem: false, allow_network: false, allow_process: false, deterministic_only: true }
    }
}

#[derive(Debug, PartialEq, Eq)]
pub struct SandboxedExternBlock {
    pub block: ExternBlock,
    pub policy: SandboxPolicy,
}

/// Why a sandboxed block is refused, or `None`: the block's own checks first, then a
/// deterministic policy may not allow the network or processes.
pub open spec fn sandbox_error(s: SandboxedExternBlock) -> Option<Seq<char>> {
    match block_error(s.block) {
        Some(m) => Some(m),
        None => if s.policy.deterministic_only && (s.policy.allow_network || s.policy.allow_process) {
            Some("deterministic sandboxes cannot enable network or process access"@)
        } else {
            None
        },
    }
}

impl SandboxedExternBlock {
    pub fn validate(&self) -> (r: Result<(), FfiError>)
        ensures
            r is Ok <==> sandbox_error(*self) is None,
            r matches Err(e) ==> Some(e.message@) == sandbox_error(*self),
    {
        match self.block.validate() {
            Ok(()) => {},
            Err(e) => return Err(e),
        }
        if self.policy.deterministic_only && (self.policy.allow_network || self.policy.allow_process) {
            return Err(FfiError::new("deterministic sandboxes cannot enable network or process access"));
        }
        Ok(())
    }
}

} // verus!
