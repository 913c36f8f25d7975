//! Stack frames of native functions: where each local lives, the area for outgoing
//! stack arguments, the hidden return-pointer slot, and the frame's aligned size.

use vstd::prelude::*;
use super::layout::{is_pass_indirect_type, is_scalar, sized, type_size, type_stack_size, TypeLayouts};
use super::runtime::{argument_registers, incoming_stack_arg_base, stack_arg_base};
use super::targets::{OperatingSystem, Target};
use super::CodegenError;
use crate::mir::nodes::{callable_text, BasicBlockData, LocalDecl, MirFunction, TerminatorKind};
use crate::text::str_eq;
use crate::types::Type;

verus! {

pub open spec fn stack_base_of(t: Target) -> int {
    match t.os {
        OperatingSystem::Linux => 0,
        OperatingSystem::Windows => 32,
    }
}

pub open spec fn register_count(t: Target) -> int {
    match t.os {
        OperatingSystem::Linux => 6,
        OperatingSystem::Windows => 4,
    }
}

/// The outgoing area a call with `n` arguments needs: the hidden return pointer counts as
/// one more argument, and those past the registers go on the stack.
pub open spec fn call_area(n: int, t: Target) -> int {
    let on_stack = if n + 1 > register_count(t) { n + 1 - register_count(t) } else { 0 };
    stack_base_of(t) + on_stack * 8
}

/// The largest area any call among the first `k` blocks needs, if any of them calls.
pub open spec fn largest_call_area(bs: Seq<BasicBlockData>, k: int, t: Target) -> Option<int>
    decreases k,
{
    if k <= 0 || k > bs.len() {
        None
    } else {
        let here = match bs[k - 1].terminator {
            TerminatorKind::Call { args, .. } => Some(call_area(args@.len() as int, t)),
            _ => None,
        };
        match (largest_call_area(bs, k - 1, t), here) {
            (Some(a), Some(b)) => Some(if a >= b { a } else { b }),
            (Some(a), None) => Some(a),
            (None, b) => b,
        }
    }
}

/// The outgoing area of the function's frame: what its largest call needs, or else what
/// the target reserves.
pub open spec fn outgoing_area(f: MirFunction, t: Target) -> int {
    match largest_call_area(f.blocks@, f.blocks@.len() as int, t) {
        Some(a) => a,
        None => stack_base_of(t),
    }
}

pub fn max_outgoing_call_area(function: &MirFunction, target: Target) -> (r: Option<usize>)
    ensures
        r matches Some(n) ==> n == outgoing_area(*function, target),
        r is None ==> outgoing_area(*function, target) > usize::MAX,
{
    let registers = argument_registers(target).len();
    let base = stack_arg_base(target);
    let ghost bs = function.blocks@;
    let mut best: usize = 0;
    let mut any_call = false;
    let mut overflowed = false;
    let mut k: usize = 0;
    while k < function.blocks.len()
        invariant
            k <= bs.len(),
            bs == function.blocks@,
            registers as int == register_count(target),
            base as int == stack_base_of(target),
            any_call == (largest_call_area(bs, k as int, target) is Some),
            any_call && !overflowed ==> largest_call_area(bs, k as int, target) == Some(best as int),
            overflowed ==> any_call && largest_call_area(bs, k as int, target)->0 > usize::MAX,
        decreases bs.len() - k,
    {
        match &function.blocks[k].terminator {
            TerminatorKind::Call { args, .. } => {
                let ghost wanted = call_area(args@.len() as int, target);
                let here: Option<usize> = if args.len() >= usize::MAX {
                    None
                } else {
                    let abi = args.len() + 1;
                    let on_stack = if abi > registers { abi - registers } else { 0 };
                    match on_stack.checked_mul(8) {
                        Some(bytes) => base.checked_add(bytes),
                        None => None,
                    }
                };
                proof {
                    assert(here matches Some(h) ==> h == wanted);
                    assert(here is None ==> wanted > usize::MAX);
                }
                match here {
                    Some(h) => {
                        if !any_call || h > best {
                            best = h;
                        }
                    },
                    None => {
                        overflowed = true;
                    },
                }
                any_call = true;
            },
            _ => {},
        }
        k += 1;
    }
    if overflowed {
        None
    } else if any_call {
        Some(best)
    } else {
        Some(base)
    }
}

/// The alignment the frame size keeps modulo 16, so that `rsp` is aligned at calls: `main`
/// on Windows is entered from the wrapper, everything else from a `call`.
pub open spec fn frame_alignment(f: MirFunction, t: Target) -> int {
    match t.os {
        OperatingSystem::Linux => 8,
        OperatingSystem::Windows => if f.receiver is None && f.name@ == "main"@ { 0 } else { 8 },
    }
}

pub fn required_frame_alignment(function: &MirFunction, target: Target) -> (r: usize)
    ensures
        r == frame_alignment(*function, target),
{
    match target.os {
        OperatingSystem::Linux => 8,
        OperatingSystem::Windows => {
            if function.receiver.is_none() && str_eq(function.name.as_str(), "main") {
                0
            } else {
                8
            }
        },
    }
}

/// The total size of the first `n` locals.
pub open spec fn locals_size(l: Seq<(String, super::layout::StructLayout)>, locals: Seq<LocalDecl>, n: int) -> int
    decreases n,
{
    if n <= 0 || n > locals.len() {
        0
    } else {
        locals_size(l, locals, n - 1) + type_size(l, locals[n - 1].ty)->0
    }
}

proof fn lemma_locals_size_mono(l: Seq<(String, super::layout::StructLayout)>, locals: Seq<LocalDecl>, i: int, j: int)
    requires
        0 <= i <= j <= locals.len(),
    ensures
        0 <= locals_size(l, locals, i) <= locals_size(l, locals, j),
    decreases j,
{
    if j > 0 {
        lemma_locals_size_mono(l, locals, if i < j { i } else { j - 1 }, j - 1);
    }
}

/// The smallest size at least `x` that is `a` modulo 16.
pub open spec fn aligned_size(x: int, a: int) -> int {
    x + (a + 16 - x % 16) % 16
}

/// Where each local lives above `rsp`, and the frame's shape.
#[derive(Debug)]
pub struct StackLayout {
    pub total_size: usize,
    pub outgoing_call_area: usize,
    pub return_ptr_offset: Option<i32>,
    pub offsets: Vec<i32>,
    pub local_types: Vec<Type>,
}

/// Every local of the function has a supported type.
pub open spec fn locals_supported(f: MirFunction, layouts: TypeLayouts) -> bool {
    forall|i: int| 0 <= i < f.locals@.len() ==> #[trigger] sized(layouts.structs@, f.locals@[i].ty)
}

fn local_type_error(local: &LocalDecl) -> (e: CodegenError)
    ensures
        e.message@ == "native codegen does not yet support local `"@ + local.name@ + "` of type `"@
            + crate::types::type_text(local.ty) + "`"@,
{
    let mut text = crate::text::chars_of("native codegen does not yet support local `");
    crate::text::push_str_chars(&mut text, local.name.as_str());
    crate::text::push_str_chars(&mut text, "` of type `");
    let ty = local.ty.display_name();
    crate::text::push_str_chars(&mut text, ty.as_str());
    crate::text::push_str_chars(&mut text, "`");
    CodegenError::from_chars(&text)
}

impl StackLayout {
    /// Lays the frame out: the outgoing area at the bottom, then the locals in order, then
    /// the hidden return pointer for a function that returns through memory, rounded up
    /// to the target's alignment.
    pub fn new(function: &MirFunction, layouts: &TypeLayouts, target: Target) -> (r: Result<Self, CodegenError>)
        ensures
            !locals_supported(*function, *layouts) ==> r is Err,
            locals_supported(*function, *layouts) && aligned_size(
                outgoing_area(*function, target) + locals_size(layouts.structs@, function.locals@, function.locals@.len() as int)
                    + if !is_scalar(*function.signature.return_type) && sized(layouts.structs@, *function.signature.return_type) {
                    8int
                } else {
                    0int
                },
                frame_alignment(*function, target),
            ) <= usize::MAX ==> r is Ok,
            r matches Ok(s) ==> {
                let area = outgoing_area(*function, target);
                let frame = locals_size(layouts.structs@, function.locals@, function.locals@.len() as int);
                &&& locals_supported(*function, *layouts)
                &&& s.outgoing_call_area == area
                &&& s.offsets@.len() == function.locals@.len()
                &&& forall|i: int| 0 <= i < s.offsets@.len() ==> #[trigger] s.offsets@[i] == (area + locals_size(
                    layouts.structs@,
                    function.locals@,
                    i,
                )) as i32
                &&& (!is_scalar(*function.signature.return_type) && sized(layouts.structs@, *function.signature.return_type)
                    ==> s.return_ptr_offset == Some((area + frame) as i32))
                &&& (is_scalar(*function.signature.return_type) || !sized(layouts.structs@, *function.signature.return_type)
                    ==> s.return_ptr_offset is None)
                &&& s.total_size == aligned_size(
                    area + frame + if s.return_ptr_offset is Some { 8int } else { 0int },
                    frame_alignment(*function, target),
                )
                &&& s.local_types@.len() == function.locals@.len()
            },
    {
        let mut i: usize = 0;
        while i < function.locals.len()
            invariant
                i <= function.locals@.len(),
                forall|k: int| 0 <= k < i ==> #[trigger] sized(layouts.structs@, function.locals@[k].ty),
            decreases function.locals@.len() - i,
        {
            if !super::layout::is_supported_local_type(&function.locals[i].ty, layouts) {
                return Err(local_type_error(&function.locals[i]));
            }
            i += 1;
        }
        let ghost total_frame = locals_size(layouts.structs@, function.locals@, function.locals@.len() as int);
        let ghost extra = if !is_scalar(*function.signature.return_type) && sized(layouts.structs@, *function.signature.return_type) {
            8int
        } else {
            0int
        };
        let ghost fits = aligned_size(outgoing_area(*function, target) + total_frame + extra, frame_alignment(*function, target))
            <= usize::MAX;
        proof {
            lemma_locals_size_mono(layouts.structs@, function.locals@, 0, function.locals@.len() as int);
            assert(fits ==> outgoing_area(*function, target) + total_frame + extra <= usize::MAX);
        }
        let area = match max_outgoing_call_area(function, target) {
            Some(a) => a,
            None => return Err(CodegenError::new("outgoing call area exceeds the address space")),
        };
        let mut frame: usize = 0;
        let mut offsets: Vec<i32> = Vec::new();
        let mut local_types: Vec<Type> = Vec::new();
        let mut i: usize = 0;
        while i < function.locals.len()
            invariant
                i <= function.locals@.len(),
                area == outgoing_area(*function, target),
                locals_supported(*function, *layouts),
                frame == locals_size(layouts.structs@, function.locals@, i as int),
                offsets@.len() == i,
                local_types@.len() == i,
                forall|k: int| 0 <= k < i ==> #[trigger] offsets@[k] == (area + locals_size(layouts.structs@, function.locals@, k)) as i32,
                total_frame == locals_size(layouts.structs@, function.locals@, function.locals@.len() as int),
                extra >= 0,
                fits ==> area + total_frame + extra <= usize::MAX,
            decreases function.locals@.len() - i,
        {
            proof {
                lemma_locals_size_mono(layouts.structs@, function.locals@, i as int, function.locals@.len() as int);
                lemma_locals_size_mono(layouts.structs@, function.locals@, i + 1, function.locals@.len() as int);
                assert(sized(layouts.structs@, function.locals@[i as int].ty));
            }
            let start = match area.checked_add(frame) {
                Some(s) => s,
                None => return Err(CodegenError::new("stack frame exceeds the address space")),
            };
            let offset = (#[verifier::truncate] (start as i32));
            offsets.push(offset);
            let size = match type_stack_size(&function.locals[i].ty, layouts) {
                Ok(size) => size,
                Err(e) => return Err(e),
            };
            frame = match frame.checked_add(size) {
                Some(f) => f,
                None => return Err(CodegenError::new("stack frame exceeds the address space")),
            };
            local_types.push(function.locals[i].ty.duplicate());
            i += 1;
        }
        let frame_end = match area.checked_add(frame) {
            Some(e) => e,
            None => return Err(CodegenError::new("stack frame exceeds the address space")),
        };
        let return_ptr_offset = if is_pass_indirect_type(&function.signature.return_type, layouts) {
            let offset = (#[verifier::truncate] (frame_end as i32));
            Some(offset)
        } else {
            None
        };
        let used = if return_ptr_offset.is_some() {
            match frame_end.checked_add(8) {
                Some(u) => u,
                None => return Err(CodegenError::new("stack frame exceeds the address space")),
            }
        } else {
            frame_end
        };
        let alignment = required_frame_alignment(function, target);
        let padding = (alignment + 16 - used % 16) % 16;
        let total_size = match used.checked_add(padding) {
            Some(t) => t,
            None => return Err(CodegenError::new("stack frame exceeds the address space")),
        };
        Ok(StackLayout { total_size, outgoing_call_area: area, return_ptr_offset, offsets, local_types })
    }

    /// The offset of the local's slot above `rsp`.
    pub fn offset_for(&self, local: usize) -> (r: Result<i32, CodegenError>)
        ensures
            local < self.offsets@.len() ==> r == Ok::<i32, CodegenError>(self.offsets@[local as int]),
            local >= self.offsets@.len() ==> r is Err,
    {
        if local < self.offsets.len() {
            Ok(self.offsets[local])
        } else {
            let mut text = crate::text::chars_of("stack slot for local `");
            let mut digits = crate::text::decimal_chars(local as u64);
            text.append(&mut digits);
            crate::text::push_str_chars(&mut text, "` does not exist");
            Err(CodegenError::from_chars(&text))
        }
    }

    /// The offset above `rsp` of an outgoing stack argument, which must lie in the
    /// outgoing area.
    pub fn outgoing_arg_offset(&self, target: Target, stack_index: usize) -> (r: Result<i32, CodegenError>)
        ensures
            r matches Ok(o) ==> o as int == stack_base_of(target) + stack_index * 8 && o < self.outgoing_call_area,
            stack_base_of(target) + stack_index * 8 < self.outgoing_call_area && self.outgoing_call_area <= i32::MAX ==> r is Ok,
    {
        let base = stack_arg_base(target);
        let offset = match stack_index.checked_mul(8) {
            Some(bytes) => match base.checked_add(bytes) {
                Some(o) => o,
                None => return Err(CodegenError::new("outgoing stack argument offset overflowed")),
            },
            None => return Err(CodegenError::new("outgoing stack argument offset overflowed")),
        };
        if offset >= self.outgoing_call_area || offset > 2147483647 {
            let mut text = crate::text::chars_of("outgoing stack argument slot `");
            let mut digits = crate::text::decimal_chars(stack_index as u64);
            text.append(&mut digits);
            crate::text::push_str_chars(&mut text, "` does not exist");
            return Err(CodegenError::from_chars(&text));
        }
        Ok(offset as i32)
    }

    /// The offset above `rsp` of an incoming stack argument: past the frame, the return
    /// address and, on Windows, the caller's shadow space.
    pub fn incoming_arg_offset(&self, target: Target, stack_index: usize) -> (r: Result<i32, CodegenError>)
        ensures
            r matches Ok(o) ==> o as int == self.total_size + (match target.os {
                OperatingSystem::Linux => 8int,
                OperatingSystem::Windows => 40int,
            }) + stack_index * 8,
            self.total_size + (match target.os {
                OperatingSystem::Linux => 8int,
                OperatingSystem::Windows => 40int,
            }) + stack_index * 8 <= i32::MAX ==> r is Ok,
    {
        let base = match self.total_size.checked_add(incoming_stack_arg_base(target)) {
            Some(b) => b,
            None => return Err(CodegenError::new("incoming stack argument offset overflowed")),
        };
        let offset = match stack_index.checked_mul(8) {
            Some(bytes) => match base.checked_add(bytes) {
                Some(o) => o,
                None => return Err(CodegenError::new("incoming stack argument offset overflowed")),
            },
            None => return Err(CodegenError::new("incoming stack argument offset overflowed")),
        };
        if offset > 2147483647 {
            return Err(CodegenError::new("incoming stack argument offset exceeds x86-64 frame limits"));
        }
        Ok(offset as i32)
    }
}

} // verus!
