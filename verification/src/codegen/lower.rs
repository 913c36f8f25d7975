//! Lowering MIR to x86-64 instructions: operands into registers, assignments into frame
//! slots and struct fields, calls through the target's calling convention, and whole
//! programs behind the entry wrapper.

use vstd::prelude::*;
use super::frame::{aligned_size, frame_alignment, locals_size, locals_supported, outgoing_area, StackLayout};
use super::layout::{
    element_size, is_pass_indirect_type, is_scalar, is_supported_local_type, is_supported_scalar_type, sized, type_size,
    supported_array_element_size, type_stack_size, TypeLayouts,
};
use super::runtime::{argument_registers, argument_registers_of, copy_bytes_fixed, emit_compare, LoweringState};
use super::targets::Target;
use super::x86::{code_view, Condition, Ins, Instruction, Register};
use super::routines::{appended, fn_label, lemma_appended_chain, lemma_appended_pushes};
use super::CodegenError;
use crate::mir::nodes::{
    BasicBlockData, BasicBlockId, Constant, ConstantValue, LocalId, MirFunction, Operand, Place, ProjectionElem, Rvalue,
    StatementKind, TerminatorKind,
};
use crate::text::{chars_of, decimal_chars, i64_value, parse_i64, push_str_chars, str_eq, string_from_chars};
use crate::types::Type;

verus! {

/// `new` is `old` with instructions appended.
pub open spec fn extends(old: Seq<Instruction>, new: Seq<Instruction>) -> bool {
    &&& new.len() >= old.len()
    &&& new.take(old.len() as int) == old
}

pub proof fn lemma_extends_trans(a: Seq<Instruction>, b: Seq<Instruction>, c: Seq<Instruction>)
    requires
        extends(a, b),
        extends(b, c),
    ensures
        extends(a, c),
{
    assert forall|i: int| 0 <= i < a.len() implies c.take(a.len() as int)[i] == a[i] by {
        assert(c[i] == c.take(b.len() as int)[i]);
        assert(b[i] == b.take(a.len() as int)[i]);
    }
    assert(c.take(a.len() as int) =~= a);
}

proof fn lemma_extends_push(a: Seq<Instruction>, x: Instruction)
    ensures
        extends(a, a.push(x)),
{
    assert(a.push(x).take(a.len() as int) =~= a);
}

proof fn lemma_extends_refl(a: Seq<Instruction>)
    ensures
        extends(a, a),
{
    assert(a.take(a.len() as int) =~= a);
}

/// The code that loads an operand into a register, for a whole local held in a frame slot
/// or a unit, integer or boolean constant.
pub open spec fn operand_code(operand: Operand, destination: Register, offsets: Seq<i32>) -> Option<Seq<Ins>> {
    match operand {
        Operand::Copy(p) | Operand::Move(p) => if p.projection@.len() == 0 && p.local.0 < offsets.len() {
            Some(seq![Ins::MovRegStack(destination, offsets[p.local.0 as int])])
        } else {
            None
        },
        Operand::Constant(c) => match c.value {
            ConstantValue::Unit => Some(seq![Ins::MovRegImm64(destination, 0)]),
            ConstantValue::Integer(t) => match i64_value(t@) {
                Some(v) => Some(seq![Ins::MovRegImm64(destination, v)]),
                None => None,
            },
            ConstantValue::Bool(b) => Some(seq![Ins::MovRegImm64(destination, if b { 1 } else { 0 })]),
            _ => None,
        },
    }
}

/// The code a unary operator applies to `rax`.
pub open spec fn unary_op_code(op: Seq<char>) -> Option<Seq<Ins>> {
    if op == "Negate"@ {
        Some(seq![Ins::NegReg(Register::Rax)])
    } else if op == "Not"@ {
        Some(seq![Ins::CmpRegImm(Register::Rax, 0), Ins::SetCondAl(Condition::Equal), Ins::MovzxEaxAl])
    } else {
        None
    }
}

/// The code that compares `rax` with `rcx` and leaves the condition's truth in `rax`.
pub open spec fn compare_code(c: Condition) -> Seq<Ins> {
    seq![Ins::CmpRegReg(Register::Rax, Register::Rcx), Ins::SetCondAl(c), Ins::MovzxEaxAl]
}

/// The code a binary operator applies to `rax` and `rcx`, leaving the result in `rax`.
pub open spec fn binary_op_code(op: Seq<char>) -> Option<Seq<Ins>> {
    if op == "Add"@ {
        Some(seq![Ins::AddRegReg(Register::Rax, Register::Rcx)])
    } else if op == "Subtract"@ {
        Some(seq![Ins::SubRegReg(Register::Rax, Register::Rcx)])
    } else if op == "Multiply"@ {
        Some(seq![Ins::IMulRegReg(Register::Rax, Register::Rcx)])
    } else if op == "Divide"@ {
        Some(seq![Ins::Cqo, Ins::IDivReg(Register::Rcx)])
    } else if op == "And"@ {
        Some(seq![Ins::AndRegReg(Register::Rax, Register::Rcx)])
    } else if op == "Or"@ {
        Some(seq![Ins::OrRegReg(Register::Rax, Register::Rcx)])
    } else if op == "Equal"@ {
        Some(compare_code(Condition::Equal))
    } else if op == "NotEqual"@ {
        Some(compare_code(Condition::NotEqual))
    } else if op == "Less"@ {
        Some(compare_code(Condition::Less))
    } else if op == "LessEqual"@ {
        Some(compare_code(Condition::LessEqual))
    } else if op == "Greater"@ {
        Some(compare_code(Condition::Greater))
    } else if op == "GreaterEqual"@ {
        Some(compare_code(Condition::GreaterEqual))
    } else {
        None
    }
}

/// The code that computes a scalar right-hand side into `rax`, where its operands are whole
/// locals or immediate constants and its operator has native code: the left operand into
/// `rax`, the right one into `rcx`, then the operator.
pub open spec fn rvalue_code(value: Rvalue, offsets: Seq<i32>) -> Option<Seq<Ins>> {
    match value {
        Rvalue::Use(o) => operand_code(o, Register::Rax, offsets),
        Rvalue::UnaryOp { op, operand } => match (operand_code(operand, Register::Rax, offsets), unary_op_code(op@)) {
            (Some(a), Some(b)) => Some(a + b),
            _ => None,
        },
        Rvalue::BinaryOp { op, left, right } => match (
            operand_code(left, Register::Rax, offsets),
            operand_code(right, Register::Rcx, offsets),
            binary_op_code(op@),
        ) {
            (Some(a), Some(b), Some(c)) => Some(a + b + c),
            _ => None,
        },
        _ => None,
    }
}

/// The code that assigns a scalar right-hand side to a whole local of scalar type: the
/// value into `rax`, then `rax` into the local's slot.
pub open spec fn assign_code(function: MirFunction, place: Place, value: Rvalue, offsets: Seq<i32>) -> Option<Seq<Ins>> {
    if place.projection@.len() == 0 && place.local.0 < function.locals@.len() && place.local.0 < offsets.len() && is_scalar(
        function.locals@[place.local.0 as int].ty,
    ) {
        match rvalue_code(value, offsets) {
            Some(c) => Some(c.push(Ins::MovStackReg(offsets[place.local.0 as int], Register::Rax))),
            None => None,
        }
    } else {
        None
    }
}

/// The code of the first `n` statements of a block: each assignment's code in order; the
/// other statements have none.
pub open spec fn statements_code(
    function: MirFunction,
    statements: Seq<crate::mir::nodes::Statement>,
    offsets: Seq<i32>,
    n: int,
) -> Option<Seq<Ins>>
    decreases n,
{
    if n <= 0 || n > statements.len() {
        if n <= 0 { Some(Seq::empty()) } else { None }
    } else {
        match statements_code(function, statements, offsets, n - 1) {
            Some(before) => match statements[n - 1].kind {
                StatementKind::Assign(place, value) => match assign_code(function, place, value, offsets) {
                    Some(c) => Some(before + c),
                    None => None,
                },
                _ => Some(before),
            },
            None => None,
        }
    }
}

proof fn lemma_statements_code_prefix(
    function: MirFunction,
    statements: Seq<crate::mir::nodes::Statement>,
    offsets: Seq<i32>,
    i: int,
    n: int,
)
    requires
        0 <= i <= n <= statements.len(),
        statements_code(function, statements, offsets, n) is Some,
    ensures
        statements_code(function, statements, offsets, i) is Some,
    decreases n - i,
{
    if i < n {
        lemma_statements_code_prefix(function, statements, offsets, i, n - 1);
    }
}

/// The label of a block of the function.
pub open spec fn block_label_text(function: MirFunction, block: BasicBlockId) -> Seq<char> {
    fn_label(function) + ".Lbb"@ + crate::text::decimal(block.0 as nat)
}

/// The epilogue: the frame released, then `ret`.
pub open spec fn epilogue_code(total_size: usize) -> Seq<Ins> {
    (if total_size > 0 { seq![Ins::AddRsp(total_size as u32)] } else { Seq::empty() }).push(Ins::Ret)
}

/// The code that returns from the function: a scalar result from the return local's slot,
/// or zero for `()`, into `rax`, then the epilogue.
pub open spec fn return_code(function: MirFunction, offsets: Seq<i32>, total_size: usize) -> Option<Seq<Ins>> {
    match *function.signature.return_type {
        Type::Unit => Some(seq![Ins::MovRegImm64(Register::Rax, 0)] + epilogue_code(total_size)),
        Type::Int | Type::Byte | Type::Bool | Type::String | Type::Enum(_) => if function.return_local.0 < offsets.len() {
            Some(seq![Ins::MovRegStack(Register::Rax, offsets[function.return_local.0 as int])] + epilogue_code(total_size))
        } else {
            None
        },
        _ => None,
    }
}

/// The code that passes the first `n` arguments: each into `rax`, then into its argument
/// register.
pub open spec fn args_code(args: Seq<Operand>, registers: Seq<Register>, offsets: Seq<i32>, n: int) -> Option<Seq<Ins>>
    decreases n,
{
    if n <= 0 || n > args.len() {
        if n <= 0 { Some(Seq::empty()) } else { None }
    } else {
        match (args_code(args, registers, offsets, n - 1), operand_code(args[n - 1], Register::Rax, offsets)) {
            (Some(a), Some(c)) => Some(a + c + seq![Ins::MovRegReg(registers[n - 1], Register::Rax)]),
            _ => None,
        }
    }
}

proof fn lemma_args_code_prefix(args: Seq<Operand>, registers: Seq<Register>, offsets: Seq<i32>, i: int, n: int)
    requires
        0 <= i <= n <= args.len(),
        args_code(args, registers, offsets, n) is Some,
    ensures
        args_code(args, registers, offsets, i) is Some,
    decreases n - i,
{
    if i < n {
        lemma_args_code_prefix(args, registers, offsets, i, n - 1);
    }
}

/// The code that stores a call's result from `rax` into the destination's slot, if any.
pub open spec fn result_store_code(destination: Option<Place>, offsets: Seq<i32>) -> Seq<Ins> {
    match destination {
        Some(p) => seq![Ins::MovStackReg(offsets[p.local.0 as int], Register::Rax)],
        None => Seq::empty(),
    }
}

/// The code of a direct call of a function of the program that takes scalar arguments in
/// registers and returns a scalar: the arguments passed, the call, the result stored into
/// a whole local of scalar type where there is a destination, then the jump to the next
/// block.
pub open spec fn call_code(
    function: MirFunction,
    program: crate::mir::nodes::MirProgram,
    target: Target,
    callee: Operand,
    args: Seq<Operand>,
    destination: Option<Place>,
    next: BasicBlockId,
    offsets: Seq<i32>,
) -> Option<Seq<Ins>> {
    let registers = super::runtime::argument_registers_of(target);
    match crate::mir::determinism::callee_of(callee) {
        Some(n) => match crate::mir::determinism::last_index(crate::mir::determinism::names_of(program), n) {
            Some(k) => {
                let f = program.functions@[k];
                let store = match destination {
                    Some(p) => if p.projection@.len() == 0 && p.local.0 < function.locals@.len() && p.local.0 < offsets.len()
                        && is_scalar(function.locals@[p.local.0 as int].ty) {
                        Some(result_store_code(destination, offsets))
                    } else {
                        None
                    },
                    None => Some(result_store_code(destination, offsets)),
                };
                if is_scalar(*f.signature.return_type) && args.len() <= registers.len() && args.len()
                    <= f.signature.params@.len() && (forall|i: int| 0 <= i < args.len() ==> #[trigger] is_scalar(
                    f.signature.params@[i],
                )) {
                    match (args_code(args, registers, offsets, args.len() as int), store) {
                        (Some(a), Some(st)) => Some(
                            a + seq![Ins::Call(fn_label(f))] + st + seq![Ins::Jump(block_label_text(function, next))],
                        ),
                        _ => None,
                    }
                } else {
                    None
                }
            },
            None => None,
        },
        None => None,
    }
}

/// The code of a block's terminator: a jump, a branch on a scalar condition, a direct call,
/// a return, or a trap.
pub open spec fn terminator_code(
    function: MirFunction,
    program: crate::mir::nodes::MirProgram,
    target: Target,
    t: TerminatorKind,
    offsets: Seq<i32>,
    total_size: usize,
) -> Option<Seq<Ins>> {
    match t {
        TerminatorKind::Goto { target } => Some(seq![Ins::Jump(block_label_text(function, target))]),
        TerminatorKind::Branch { condition, then_bb, else_bb } => match operand_code(condition, Register::Rax, offsets) {
            Some(c) => Some(c + seq![
                Ins::CmpRegImm(Register::Rax, 0),
                Ins::JumpIf(Condition::NotEqual, block_label_text(function, then_bb)),
                Ins::Jump(block_label_text(function, else_bb)),
            ]),
            None => None,
        },
        TerminatorKind::Call { callee, args, destination, target: next } => call_code(
            function,
            program,
            target,
            callee,
            args@,
            destination,
            next,
            offsets,
        ),
        TerminatorKind::Return => return_code(function, offsets, total_size),
        TerminatorKind::Unreachable => Some(seq![Ins::Ud2]),
        _ => None,
    }
}

/// The code of a block whose statements are scalar assignments to whole locals (or have no
/// code) and whose terminator is a jump, a branch, a return or a trap.
pub open spec fn block_code(
    function: MirFunction,
    program: crate::mir::nodes::MirProgram,
    target: Target,
    block: BasicBlockData,
    offsets: Seq<i32>,
    total_size: usize,
) -> Option<Seq<Ins>> {
    match (
        statements_code(function, block.statements@, offsets, block.statements@.len() as int),
        terminator_code(function, program, target, block.terminator, offsets, total_size),
    ) {
        (Some(a), Some(b)) => Some(a + b),
        _ => None,
    }
}

/// The code that spills the first `n` parameters from their argument registers into the
/// slots of locals `1..=n`.
pub open spec fn params_code(registers: Seq<Register>, offsets: Seq<i32>, n: int) -> Seq<Ins>
    decreases n,
{
    if n <= 0 {
        Seq::empty()
    } else {
        params_code(registers, offsets, n - 1) + seq![
            Ins::MovRegReg(Register::Rax, registers[n - 1]),
            Ins::MovStackReg(offsets[n], Register::Rax),
        ]
    }
}

/// The function's parameters are scalars that all arrive in registers, each with the slot
/// of its local, and no hidden return pointer is passed.
pub open spec fn params_in_registers(function: MirFunction, offsets: Seq<i32>, return_ptr: Option<i32>, target: Target) -> bool {
    let p = function.signature.params@.len();
    &&& return_ptr is None
    &&& p <= super::runtime::argument_registers_of(target).len()
    &&& p < function.locals@.len()
    &&& p < offsets.len()
    &&& forall|i: int| 0 <= i < p ==> #[trigger] is_scalar(function.signature.params@[i])
}

/// The code of the first `n` blocks, each under its label.
pub open spec fn blocks_code(
    function: MirFunction,
    program: crate::mir::nodes::MirProgram,
    target: Target,
    offsets: Seq<i32>,
    total_size: usize,
    n: int,
) -> Option<Seq<Ins>>
    decreases n,
{
    if n <= 0 || n > function.blocks@.len() {
        if n <= 0 { Some(Seq::empty()) } else { None }
    } else {
        match (
            blocks_code(function, program, target, offsets, total_size, n - 1),
            block_code(function, program, target, function.blocks@[n - 1], offsets, total_size),
        ) {
            (Some(a), Some(b)) => Some(a + seq![Ins::Label(block_label_text(function, function.blocks@[n - 1].id))] + b),
            _ => None,
        }
    }
}

proof fn lemma_blocks_code_prefix(
    function: MirFunction,
    program: crate::mir::nodes::MirProgram,
    target: Target,
    offsets: Seq<i32>,
    total_size: usize,
    i: int,
    n: int,
)
    requires
        0 <= i <= n <= function.blocks@.len(),
        blocks_code(function, program, target, offsets, total_size, n) is Some,
    ensures
        blocks_code(function, program, target, offsets, total_size, i) is Some,
    decreases n - i,
{
    if i < n {
        lemma_blocks_code_prefix(function, program, target, offsets, total_size, i, n - 1);
    }
}

/// The slot offsets the frame layout gives the locals.
pub open spec fn frame_offsets(function: MirFunction, layouts: TypeLayouts, target: Target) -> Seq<i32> {
    Seq::new(
        function.locals@.len(),
        |i: int| (outgoing_area(function, target) + locals_size(layouts.structs@, function.locals@, i)) as i32,
    )
}

/// Whether the function returns through a hidden pointer.
pub open spec fn returns_indirect(function: MirFunction, layouts: TypeLayouts) -> bool {
    !is_scalar(*function.signature.return_type) && sized(layouts.structs@, *function.signature.return_type)
}

/// The size of the frame before alignment: outgoing area, locals, hidden return pointer.
pub open spec fn frame_used(function: MirFunction, layouts: TypeLayouts, target: Target) -> int {
    outgoing_area(function, target) + locals_size(layouts.structs@, function.locals@, function.locals@.len() as int)
        + if returns_indirect(function, layouts) { 8int } else { 0int }
}

/// Every local has a supported type and the aligned frame fits in a `usize`.
pub open spec fn frame_fits(function: MirFunction, layouts: TypeLayouts, target: Target) -> bool {
    &&& locals_supported(function, layouts)
    &&& aligned_size(frame_used(function, layouts, target), frame_alignment(function, target)) <= usize::MAX
}

/// The frame's total size.
pub open spec fn frame_total(function: MirFunction, layouts: TypeLayouts, target: Target) -> usize {
    aligned_size(frame_used(function, layouts, target), frame_alignment(function, target)) as usize
}

/// The code of a function whose frame fits, whose parameters arrive in registers and whose
/// blocks all have code: its label, the frame reserved, the parameters spilled, a jump to
/// the entry, then every block under its label.
pub open spec fn function_code(function: MirFunction, program: crate::mir::nodes::MirProgram, layouts: TypeLayouts, target: Target) -> Option<Seq<Ins>> {
    let offsets = frame_offsets(function, layouts, target);
    let total = frame_total(function, layouts, target);
    if frame_fits(function, layouts, target) && !returns_indirect(function, layouts) && params_in_registers(
        function,
        offsets,
        None,
        target,
    ) {
        match blocks_code(function, program, target, offsets, total, function.blocks@.len() as int) {
            Some(b) => Some(
                seq![Ins::Label(fn_label(function))] + (if total > 0 { seq![Ins::SubRsp(total as u32)] } else { Seq::empty() })
                    + params_code(super::runtime::argument_registers_of(target), offsets, function.signature.params@.len() as int)
                    + seq![Ins::Jump(block_label_text(function, function.entry))] + b,
            ),
            None => None,
        }
    } else {
        None
    }
}

/// Whether native code is known for the function: a declaration of a runtime routine, or a
/// definition with code.
pub open spec fn function_has_code(
    f: MirFunction,
    p: crate::mir::nodes::MirProgram,
    layouts: TypeLayouts,
    target: Target,
) -> bool {
    if f.is_declaration {
        super::routines::runtime_declaration(f)
    } else {
        function_code(f, p, layouts, target) is Some
    }
}

/// How lowering the function took the instructions from `i0` to `i1` and the state from
/// `s0` to `s1`: a declaration became its runtime routine; a definition with code became
/// that code, with the state unchanged.
pub open spec fn function_lowered(
    f: MirFunction,
    p: crate::mir::nodes::MirProgram,
    layouts: TypeLayouts,
    target: Target,
    s0: LoweringState,
    s1: LoweringState,
    i0: Seq<Instruction>,
    i1: Seq<Instruction>,
) -> bool {
    if f.is_declaration {
        super::routines::runtime_declaration(f) && super::routines::routine_emitted(f, target, s0, s1, i0, i1)
    } else {
        function_code(f, p, layouts, target) matches Some(c) ==> appended(i0, i1, c) && s1 == s0
    }
}

/// Emitting a runtime routine only appends instructions.
proof fn lemma_routine_extends(
    f: MirFunction,
    target: Target,
    s0: LoweringState,
    s1: LoweringState,
    i0: Seq<Instruction>,
    i1: Seq<Instruction>,
)
    requires
        super::routines::routine_emitted(f, target, s0, s1, i0, i1),
    ensures
        extends(i0, i1),
{
    let name = f.name@;
    let l = fn_label(f);
    let n = s0.next_label();
    if name == "print_bool"@ {
        let w = choose|w: (Seq<char>, Seq<char>)| {
            &&& super::runtime::holds_data(s1.items(), w.0, vstd::utf8::encode_utf8("true"@).push(0u8))
            &&& super::runtime::holds_data(s1.items(), w.1, vstd::utf8::encode_utf8("false"@).push(0u8))
            &&& appended(i0, i1, super::routines::print_bool_code(l, target, n, w.0, w.1))
        };
    } else if name == "print_newline"@ {
        let nl = choose|nl: Seq<char>| super::runtime::holds_data(s1.items(), nl, vstd::utf8::encode_utf8("\n"@).push(0u8))
            && appended(i0, i1, super::routines::print_newline_code(l, target, nl));
    } else if name == "http_get"@ {
        let e = choose|e: Seq<char>| super::runtime::holds_data(s1.items(), e, seq![0u8])
            && appended(i0, i1, super::routines::http_get_code(l, target, e));
    }
}

/// What optimizing a program gives, as the optimizer states it: the functions `main`
/// reaches, each optimized, in their order, each with every block reachable.
pub open spec fn optimized_program(before: crate::mir::nodes::MirProgram, after: crate::mir::nodes::MirProgram) -> bool {
    let kept = crate::mir::optimize::kept_functions(before);
    &&& after.span == before.span
    &&& after.functions@.len() == crate::mir::optimize::count_true(kept)
    &&& forall|k: int| 0 <= k < before.functions@.len() && #[trigger] kept[k] ==> crate::mir::optimize::optimized(
        before.functions@[k],
        after.functions@[crate::mir::optimize::rank(kept, k) as int],
    )
    &&& forall|i: int| 0 <= i < after.functions@.len() ==> #[trigger] crate::mir::optimize::all_blocks_reachable(after.functions@[i])
}

/// Whether `m` is the first top-level `main` of the program.
pub open spec fn first_main(p: crate::mir::nodes::MirProgram, m: int) -> bool {
    &&& 0 <= m < p.functions@.len()
    &&& p.functions@[m].receiver is None && p.functions@[m].name@ == "main"@
    &&& forall|j: int| 0 <= j < m ==> !(p.functions@[j].receiver is None && p.functions@[j].name@ == "main"@)
}

/// The symbol the loader starts a program for the target at.
pub open spec fn entry_text(target: Target) -> Seq<char> {
    match target.os {
        super::targets::OperatingSystem::Linux => "_start"@,
        super::targets::OperatingSystem::Windows => "mainCRTStartup"@,
    }
}

/// How `lowered` comes from `program`: `optimized` is an optimization of a copy of it,
/// `layouts` its struct layouts and `m` its first `main`. The instructions are the entry
/// wrapper calling `main`, up to `cuts[0]`, then each function's lowering between
/// successive cuts, with the lowering state going through `states`.
pub open spec fn lowering_witness(
    program: crate::mir::nodes::MirProgram,
    target: Target,
    lowered: super::image::LoweredProgram,
    copy: crate::mir::nodes::MirProgram,
    optimized: crate::mir::nodes::MirProgram,
    layouts: TypeLayouts,
    m: int,
    cuts: Seq<int>,
    states: Seq<LoweringState>,
) -> bool {
    let n = optimized.functions@.len() as int;
    let code = lowered.instructions@;
    &&& crate::mir::nodes::same_program(copy, program)
    &&& optimized_program(copy, optimized)
    &&& super::layout::layouts_consistent(layouts.structs@)
    &&& first_main(optimized, m)
    &&& cuts.len() == n + 1
    &&& states.len() == n + 1
    &&& 0 <= cuts[0] <= code.len()
    &&& cuts[n] == code.len()
    &&& code_view(code.take(cuts[0])) == super::routines::entry_code(optimized.functions@[m], target)
    &&& forall|i: int| 0 <= i < n ==> cuts[i] <= cuts[i + 1] && #[trigger] function_lowered(
        optimized.functions@[i],
        optimized,
        layouts,
        target,
        states[i],
        states[i + 1],
        code.take(cuts[i]),
        code.take(cuts[i + 1]),
    )
}

/// Whether `lowered` is the lowering of `program` for the target.
pub open spec fn lowered_from(program: crate::mir::nodes::MirProgram, target: Target, lowered: super::image::LoweredProgram) -> bool {
    &&& lowered.entry_label@ == entry_text(target)
    &&& exists|
        copy: crate::mir::nodes::MirProgram,
        optimized: crate::mir::nodes::MirProgram,
        layouts: TypeLayouts,
        m: int,
        cuts: Seq<int>,
        states: Seq<LoweringState>,
    | #[trigger] lowering_witness(program, target, lowered, copy, optimized, layouts, m, cuts, states)
}

/// `copy` is a copy of `program`, and `optimized` what the optimizer may make of it.
pub open spec fn optimization_of(
    program: crate::mir::nodes::MirProgram,
    copy: crate::mir::nodes::MirProgram,
    optimized: crate::mir::nodes::MirProgram,
) -> bool {
    crate::mir::nodes::same_program(copy, program) && optimized_program(copy, optimized)
}

/// Whether native code is owed for the program: its functions are well formed, and every
/// optimization the optimizer's contract allows has a top-level `main`, no struct literals,
/// few enough functions for the routines' labels and data, and code for every function
/// (a runtime routine for each declaration) under any consistent layouts.
pub open spec fn native_code_owed(program: crate::mir::nodes::MirProgram, target: Target) -> bool {
    &&& forall|i: int| 0 <= i < program.functions@.len() ==> crate::mir::optimize::well_formed(#[trigger] program.functions@[i])
    &&& forall|copy: crate::mir::nodes::MirProgram, q: crate::mir::nodes::MirProgram| #[trigger] optimization_of(program, copy, q) ==> {
        &&& super::layout::no_struct_literals(q)
        &&& (exists|m: int| #[trigger] first_main(q, m))
        &&& q.functions@.len() * 9 + 9 < usize::MAX
        &&& forall|i: int| 0 <= i < q.functions@.len() && (#[trigger] q.functions@[i]).is_declaration
            ==> super::routines::runtime_declaration(q.functions@[i])
        &&& forall|l: TypeLayouts, i: int| super::layout::layouts_consistent(l.structs@) && 0 <= i < q.functions@.len()
            ==> #[trigger] function_has_code(q.functions@[i], q, l, target)
    }
}

/// The executable image of a lowered program for the target: ELF on Linux, PE on Windows.
pub open spec fn executable_image(p: super::image::LoweredProgram, target: Target) -> Result<Seq<u8>, Seq<char>> {
    match target.os {
        super::targets::OperatingSystem::Linux => super::image::elf_image(p),
        super::targets::OperatingSystem::Windows => super::image::pe_image(p),
    }
}

/// There is room to intern data and hand out labels: fewer than the counters' limits.
pub open spec fn state_has_room(s: LoweringState) -> bool {
    &&& s.items().len() + 2 < u64::MAX
    &&& s.items().len() + 2 < usize::MAX
    &&& s.next_label() + 9 < usize::MAX
}

fn check_room(state: &LoweringState) -> (r: Result<(), CodegenError>)
    ensures
        r is Ok <==> state_has_room(*state),
{
    let items = state.data_items().len();
    let labels = state.label_count();
    proof {
        assert(state.items().len() == items);
        assert(usize::MAX <= u64::MAX);
    }
    if items < usize::MAX - 2 && labels < usize::MAX - 9 && (items as u64) < u64::MAX - 2 {
        Ok(())
    } else {
        Err(CodegenError::new("native codegen ran out of data or label space"))
    }
}

fn message(prefix: &str, middle: &str, suffix: &str) -> (e: CodegenError)
    ensures
        e.message@ == prefix@ + middle@ + suffix@,
{
    let mut text = chars_of(prefix);
    push_str_chars(&mut text, middle);
    push_str_chars(&mut text, suffix);
    CodegenError::from_chars(&text)
}

/// Loads a constant into the register: integers, booleans and unit as immediates, strings
/// as the address of their interned NUL-terminated bytes. Floats and function values are
/// refused, as is an integer whose text is no `i64`.
pub fn load_constant(value: &ConstantValue, destination: Register, state: &mut LoweringState, instructions: &mut Vec<Instruction>)
    -> (r: Result<(), CodegenError>)
    ensures
        !(*value is String) ==> *final(state) == *old(state),
        extends(old(instructions)@, final(instructions)@),
        match *value {
            ConstantValue::Unit => r is Ok && final(instructions)@ == old(instructions)@.push(Instruction::MovRegImm64(destination, 0)),
            ConstantValue::Integer(t) => match i64_value(t@) {
                Some(v) => r is Ok && final(instructions)@ == old(instructions)@.push(Instruction::MovRegImm64(destination, v)),
                None => r is Err,
            },
            ConstantValue::Bool(b) => r is Ok && final(instructions)@ == old(instructions)@.push(
                Instruction::MovRegImm64(destination, if b { 1 } else { 0 }),
            ),
            ConstantValue::Float(_) => r is Err,
            ConstantValue::Function(_) => r is Err,
            ConstantValue::String(_) => r is Ok ==> final(instructions)@.len() == old(instructions)@.len() + 1
                && final(instructions)@.last() is MovRegDataAddr,
        },
        final(state).next_label() == old(state).next_label(),
{
    proof {
        lemma_extends_refl(instructions@);
    }
    let immediate: i64 = match value {
        ConstantValue::Unit => 0,
        ConstantValue::Integer(text) => match parse_i64(text.as_str()) {
            Some(v) => v,
            None => return Err(message("invalid integer literal `", text.as_str(), "` in MIR")),
        },
        ConstantValue::Bool(b) => if *b { 1 } else { 0 },
        ConstantValue::Float(_) => {
            return Err(CodegenError::new("native x86-64 codegen does not yet support floating-point constants"));
        },
        ConstantValue::String(text) => {
            check_room(state)?;
            let label = state.intern_c_string(text.as_str());
            let ghost before = instructions@;
            instructions.push(Instruction::MovRegDataAddr(destination, label));
            proof {
                lemma_extends_push(before, instructions@.last());
            }
            return Ok(());
        },
        ConstantValue::Function(name) => {
            return Err(message("native x86-64 codegen cannot materialize function value `", name.as_str(), "` yet"));
        },
    };
    let ghost before = instructions@;
    instructions.push(Instruction::MovRegImm64(destination, immediate));
    proof {
        lemma_extends_push(before, Instruction::MovRegImm64(destination, immediate));
    }
    Ok(())
}

/// The label `__ml_<prefix>_<kind>_<n>`.
fn local_label(prefix: &str, kind: &str, n: usize) -> (s: String)
    ensures
        s@ == "__ml_"@ + prefix@ + "_"@ + kind@ + "_"@ + crate::text::decimal(n as nat),
{
    let mut text = chars_of("__ml_");
    push_str_chars(&mut text, prefix);
    push_str_chars(&mut text, "_");
    push_str_chars(&mut text, kind);
    push_str_chars(&mut text, "_");
    let mut digits = decimal_chars(n as u64);
    text.append(&mut digits);
    string_from_chars(&text)
}

/// Leaves the address of a projected place in `r10`, checking each index against its
/// array's length; gives the type of the place and the labels of the out-of-bounds and
/// done paths.
pub fn compute_projected_address(
    place: &Place,
    stack: &StackLayout,
    layouts: &TypeLayouts,
    state: &mut LoweringState,
    instructions: &mut Vec<Instruction>,
    label_prefix: &str,
) -> (r: Result<(Type, String, String), CodegenError>)
    ensures
        extends(old(instructions)@, final(instructions)@),
        final(state).next_label() == old(state).next_label(),
        place.local.0 >= stack.offsets@.len() ==> r is Err,
    decreases *place, 0nat,
{
    proof {
        lemma_extends_refl(instructions@);
    }
    let offset = stack.offset_for(place.local.0)?;
    instructions.push(Instruction::LeaRegRspOffset(Register::R10, offset));
    let ghost start = instructions@;
    proof {
        lemma_extends_push(old(instructions)@, Instruction::LeaRegRspOffset(Register::R10, offset));
        lemma_extends_refl(start);
    }
    let mut current_ty = if place.local.0 < stack.local_types.len() {
        stack.local_types[place.local.0].duplicate()
    } else {
        let mut digits = decimal_chars(place.local.0 as u64);
        let mut text = chars_of("MIR local `");
        text.append(&mut digits);
        push_str_chars(&mut text, "` does not exist");
        return Err(CodegenError::from_chars(&text));
    };
    let oob_label = local_label(label_prefix, "oob", instructions.len());
    let done_label = local_label(label_prefix, "done", instructions.len());
    let mut i: usize = 0;
    while i < place.projection.len()
        invariant
            i <= place.projection@.len(),
            extends(start, instructions@),
            extends(old(instructions)@, start),
            state.next_label() == old(state).next_label(),
            start == old(instructions)@.push(Instruction::LeaRegRspOffset(Register::R10, offset)),
        decreases place.projection@.len() - i,
    {
        let ghost before = instructions@;
        match (&place.projection[i], &current_ty) {
            (ProjectionElem::Field(field), Type::Struct(struct_name)) => {
                let field_layout = match layouts.field_layout(struct_name.as_str(), field.as_str()) {
                    Some(f) => f,
                    None => {
                        let mut text = chars_of("native codegen could not resolve field `");
                        push_str_chars(&mut text, field.as_str());
                        push_str_chars(&mut text, "` on `");
                        push_str_chars(&mut text, struct_name.as_str());
                        push_str_chars(&mut text, "`");
                        proof {
                            lemma_extends_trans(old(instructions)@, start, instructions@);
                        }
                        return Err(CodegenError::from_chars(&text));
                    },
                };
                if field_layout.offset > 0 {
                    let delta = (#[verifier::truncate] (field_layout.offset as i32));
                    instructions.push(Instruction::AddRegImm(Register::R10, delta));
                    proof {
                        lemma_extends_push(before, Instruction::AddRegImm(Register::R10, delta));
                        lemma_extends_trans(start, before, instructions@);
                    }
                }
                current_ty = field_layout.ty.duplicate();
            },
            (ProjectionElem::Index(index), Type::Array(element, length)) => {
                proof {
                    assert(decreases_to!(*place => place.projection));
                    assert(decreases_to!(place.projection => place.projection@));
                    assert(decreases_to!(place.projection@ => place.projection@[i as int]));
                }
                let loaded = load_operand(index, Register::Rcx, stack, layouts, state, instructions);
                proof {
                    lemma_extends_trans(start, before, instructions@);
                }
                match loaded {
                    Ok(()) => {},
                    Err(e) => {
                        proof {
                            lemma_extends_trans(old(instructions)@, start, instructions@);
                        }
                        return Err(e);
                    },
                }
                let bound = (#[verifier::truncate] (*length as i32));
                let ghost mid = instructions@;
                instructions.push(Instruction::CmpRegImm(Register::Rcx, 0));
                instructions.push(Instruction::JumpIf(Condition::Less, oob_label.clone()));
                instructions.push(Instruction::CmpRegImm(Register::Rcx, bound));
                instructions.push(Instruction::JumpIf(Condition::GreaterEqual, oob_label.clone()));
                let size = match supported_array_element_size(element) {
                    Some(size) => size,
                    None => {
                        proof {
                            assert(extends(mid, instructions@)) by {
                                assert(instructions@.take(mid.len() as int) =~= mid);
                            }
                            lemma_extends_trans(start, mid, instructions@);
                            lemma_extends_trans(old(instructions)@, start, instructions@);
                        }
                        let name = element.display_name();
                        return Err(message("native codegen does not support array element type `", name.as_str(), "`"));
                    },
                };
                instructions.push(Instruction::LeaRegBaseIndexScale(Register::R10, Register::R10, Register::Rcx, size as u8));
                proof {
                    assert(extends(mid, instructions@)) by {
                        assert(instructions@.take(mid.len() as int) =~= mid);
                    }
                    lemma_extends_trans(start, mid, instructions@);
                }
                current_ty = element.duplicate();
            },
            (ProjectionElem::Field(_), other) => {
                proof {
                    lemma_extends_trans(old(instructions)@, start, instructions@);
                }
                let name = other.display_name();
                return Err(message("cannot access field on `", name.as_str(), "` during native lowering"));
            },
            (ProjectionElem::Index(_), other) => {
                proof {
                    lemma_extends_trans(old(instructions)@, start, instructions@);
                }
                let name = other.display_name();
                return Err(message("cannot index into `", name.as_str(), "` during native lowering"));
            },
        }
        i += 1;
    }
    proof {
        lemma_extends_trans(old(instructions)@, start, instructions@);
    }
    Ok((current_ty, oob_label, done_label))
}

/// Loads the value of a place into the register: a whole local from its slot, a projected
/// scalar through its address, and zero when an index is out of bounds.
pub fn load_place_operand(
    place: &Place,
    destination: Register,
    stack: &StackLayout,
    layouts: &TypeLayouts,
    state: &mut LoweringState,
    instructions: &mut Vec<Instruction>,
) -> (r: Result<(), CodegenError>)
    ensures
        place.projection@.len() == 0 ==> *final(state) == *old(state),
        extends(old(instructions)@, final(instructions)@),
        final(state).next_label() == old(state).next_label(),
        place.projection@.len() == 0 && place.local.0 < stack.offsets@.len() ==> r is Ok && final(instructions)@
            == old(instructions)@.push(Instruction::MovRegStack(destination, stack.offsets@[place.local.0 as int])),
        place.local.0 >= stack.offsets@.len() ==> r is Err,
    decreases *place, 1nat,
{
    proof {
        lemma_extends_refl(instructions@);
    }
    if place.projection.len() == 0 {
        let offset = stack.offset_for(place.local.0)?;
        let ghost before = instructions@;
        instructions.push(Instruction::MovRegStack(destination, offset));
        proof {
            lemma_extends_push(before, Instruction::MovRegStack(destination, offset));
        }
        return Ok(());
    }
    let (element_ty, oob_label, done_label) = compute_projected_address(place, stack, layouts, state, instructions, "load_place")?;
    let ghost mid = instructions@;
    match element_ty {
        Type::Byte => {
            instructions.push(Instruction::MovzxRegMem8(destination, Register::R10));
        },
        other => {
            if !is_supported_scalar_type(&other) {
                let name = other.display_name();
                return Err(message("native codegen cannot load projected `", name.as_str(), "` values"));
            }
            instructions.push(Instruction::MovRegMem(destination, Register::R10));
        },
    }
    instructions.push(Instruction::Jump(done_label.clone()));
    instructions.push(Instruction::Label(oob_label));
    instructions.push(Instruction::MovRegImm64(destination, 0));
    instructions.push(Instruction::Label(done_label));
    proof {
        assert(extends(mid, instructions@)) by {
            assert(instructions@.take(mid.len() as int) =~= mid);
        }
        lemma_extends_trans(old(instructions)@, mid, instructions@);
    }
    Ok(())
}

/// Loads an operand into the register.
pub fn load_operand(
    operand: &Operand,
    destination: Register,
    stack: &StackLayout,
    layouts: &TypeLayouts,
    state: &mut LoweringState,
    instructions: &mut Vec<Instruction>,
) -> (r: Result<(), CodegenError>)
    ensures
        operand_code(*operand, destination, stack.offsets@) is Some ==> *final(state) == *old(state),
        extends(old(instructions)@, final(instructions)@),
        final(state).next_label() == old(state).next_label(),
        operand matches Operand::Constant(c) ==> c.value is Float ==> r is Err,
        operand_code(*operand, destination, stack.offsets@) matches Some(c) ==> r is Ok && appended(
            old(instructions)@,
            final(instructions)@,
            c,
        ),
    decreases *operand, 2nat,
{
    let ghost start = instructions@;
    let r = match operand {
        Operand::Copy(place) | Operand::Move(place) => load_place_operand(place, destination, stack, layouts, state, instructions),
        Operand::Constant(constant) => load_constant(&constant.value, destination, state, instructions),
    };
    proof {
        if operand_code(*operand, destination, stack.offsets@) is Some {
            let x = instructions@.last();
            assert(instructions@ == start.push(x));
            assert(start.push(x) =~= start + seq![x]);
            lemma_appended_pushes(start, seq![x]);
            assert(code_view(seq![x]) =~= seq![super::x86::ins_view(x)]);
        }
    }
    r
}

/// A copy of an operand.
pub(crate) fn copy_operand(operand: &Operand) -> (r: Operand)
    ensures
        crate::mir::nodes::same_operand(r, *operand),
    decreases *operand, 1nat,
{
    match operand {
        Operand::Copy(place) => Operand::Copy(copy_place(place)),
        Operand::Move(place) => Operand::Move(copy_place(place)),
        Operand::Constant(c) => Operand::Constant(crate::mir::const_eval::copy_constant(c)),
    }
}

/// A copy of a place.
pub(crate) fn copy_place(place: &Place) -> (r: Place)
    ensures
        r.local == place.local,
        r.projection@.len() == place.projection@.len(),
        crate::mir::nodes::same_place(r, *place),
    decreases *place, 0nat,
{
    let mut projection: Vec<ProjectionElem> = Vec::new();
    let mut i: usize = 0;
    while i < place.projection.len()
        invariant
            i <= place.projection@.len(),
            projection@.len() == i,
            crate::mir::nodes::same_projections(projection@, place.projection@, i as int),
        decreases place.projection@.len() - i,
    {
        let elem = match &place.projection[i] {
            ProjectionElem::Field(name) => ProjectionElem::Field(name.clone()),
            ProjectionElem::Index(index) => {
                proof {
                    assert(decreases_to!(*place => place.projection));
                    assert(decreases_to!(place.projection => place.projection@));
                    assert(decreases_to!(place.projection@ => place.projection@[i as int]));
                }
                ProjectionElem::Index(copy_operand(index))
            },
        };
        proof {
            assert(crate::mir::nodes::same_projection(elem, place.projection@[i as int]));
        }
        let ghost before = projection@;
        projection.push(elem);
        proof {
            crate::mir::nodes::lemma_same_projections_prefix(before, projection@, place.projection@, i as int);
        }
        i += 1;
    }
    Place { local: place.local, projection }
}

fn missing_local(local: usize) -> (e: CodegenError)
    ensures
        e.message@ == "MIR local `"@ + crate::text::decimal(local as nat) + "` does not exist"@,
{
    let mut text = chars_of("MIR local `");
    let mut digits = decimal_chars(local as u64);
    text.append(&mut digits);
    push_str_chars(&mut text, "` does not exist");
    CodegenError::from_chars(&text)
}

/// The type of a place: its local's declared type, followed through struct fields by
/// their layouts and through indices to the element type.
pub fn place_type(function: &MirFunction, place: &Place, layouts: &TypeLayouts) -> (r: Result<Type, CodegenError>)
    ensures
        place.local.0 >= function.locals@.len() ==> r is Err,
        place.projection@.len() == 0 && place.local.0 < function.locals@.len() ==> (r matches Ok(t)
            && crate::types::same_type(t, function.locals@[place.local.0 as int].ty)),
{
    if place.local.0 >= function.locals.len() {
        return Err(missing_local(place.local.0));
    }
    let mut ty = function.locals[place.local.0].ty.duplicate();
    let mut i: usize = 0;
    while i < place.projection.len()
        invariant
            i <= place.projection@.len(),
            place.local.0 < function.locals@.len(),
            i == 0 ==> crate::types::same_type(ty, function.locals@[place.local.0 as int].ty),
        decreases place.projection@.len() - i,
    {
        let next = match (&place.projection[i], &ty) {
            (ProjectionElem::Field(field), Type::Struct(struct_name)) => {
                match layouts.field_layout(struct_name.as_str(), field.as_str()) {
                    Some(layout) => layout.ty.duplicate(),
                    None => {
                        let mut text = chars_of("native codegen could not resolve field `");
                        push_str_chars(&mut text, field.as_str());
                        push_str_chars(&mut text, "` on `");
                        push_str_chars(&mut text, struct_name.as_str());
                        push_str_chars(&mut text, "`");
                        return Err(CodegenError::from_chars(&text));
                    },
                }
            },
            (ProjectionElem::Field(field), other) => {
                let mut text = chars_of("cannot access field `");
                push_str_chars(&mut text, field.as_str());
                push_str_chars(&mut text, "` on `");
                let name = other.display_name();
                push_str_chars(&mut text, name.as_str());
                push_str_chars(&mut text, "` during native lowering");
                return Err(CodegenError::from_chars(&text));
            },
            (ProjectionElem::Index(_), Type::Array(element, _)) => element.duplicate(),
            (ProjectionElem::Index(_), other) => {
                let name = other.display_name();
                return Err(message("cannot index into `", name.as_str(), "` during native lowering"));
            },
        };
        ty = next;
        i += 1;
    }
    Ok(ty)
}

/// Refuses a local the function does not declare, or one of an unsupported type.
pub fn ensure_supported_local_type(function: &MirFunction, layouts: &TypeLayouts, local: usize) -> (r: Result<(), CodegenError>)
    ensures
        r is Ok <==> local < function.locals@.len() && sized(layouts.structs@, function.locals@[local as int].ty),
{
    if local >= function.locals.len() {
        return Err(missing_local(local));
    }
    let decl = &function.locals[local];
    if is_supported_local_type(&decl.ty, layouts) {
        Ok(())
    } else {
        let mut text = chars_of("native codegen does not yet support local `");
        push_str_chars(&mut text, decl.name.as_str());
        push_str_chars(&mut text, "` of type `");
        let name = decl.ty.display_name();
        push_str_chars(&mut text, name.as_str());
        push_str_chars(&mut text, "`");
        Err(CodegenError::from_chars(&text))
    }
}

/// Stores the register into a place: a whole local's slot, or a projected scalar through
/// its address, skipped when an index is out of bounds.
pub fn store_scalar_place(
    function: &MirFunction,
    place: &Place,
    source: Register,
    stack: &StackLayout,
    layouts: &TypeLayouts,
    state: &mut LoweringState,
    instructions: &mut Vec<Instruction>,
) -> (r: Result<(), CodegenError>)
    ensures
        place.projection@.len() == 0 ==> *final(state) == *old(state),
        extends(old(instructions)@, final(instructions)@),
        final(state).next_label() == old(state).next_label(),
        place.projection@.len() == 0 && place.local.0 < stack.offsets@.len() ==> r is Ok && final(instructions)@
            == old(instructions)@.push(Instruction::MovStackReg(stack.offsets@[place.local.0 as int], source)),
{
    proof {
        lemma_extends_refl(instructions@);
    }
    if place.projection.len() == 0 {
        let offset = stack.offset_for(place.local.0)?;
        let ghost before = instructions@;
        instructions.push(Instruction::MovStackReg(offset, source));
        proof {
            lemma_extends_push(before, Instruction::MovStackReg(offset, source));
        }
        return Ok(());
    }
    let value_ty = place_type(function, place, layouts)?;
    let (_element_ty, oob_label, done_label) = compute_projected_address(place, stack, layouts, state, instructions, "store_place")?;
    let ghost mid = instructions@;
    match value_ty {
        Type::Byte => instructions.push(Instruction::MovMemReg8(Register::R10, source)),
        other => {
            if !is_supported_scalar_type(&other) {
                let name = other.display_name();
                return Err(message("native codegen cannot store projected `", name.as_str(), "` values"));
            }
            instructions.push(Instruction::MovMemReg(Register::R10, source));
        },
    }
    instructions.push(Instruction::Jump(done_label.clone()));
    instructions.push(Instruction::Label(oob_label));
    instructions.push(Instruction::Label(done_label));
    proof {
        assert(extends(mid, instructions@)) by {
            assert(instructions@.take(mid.len() as int) =~= mid);
        }
        lemma_extends_trans(old(instructions)@, mid, instructions@);
    }
    Ok(())
}

/// Leaves the address of a place in `r10`, or zero when an index is out of bounds.
pub fn compute_place_address(
    place: &Place,
    stack: &StackLayout,
    layouts: &TypeLayouts,
    state: &mut LoweringState,
    instructions: &mut Vec<Instruction>,
    label_prefix: &str,
) -> (r: Result<(), CodegenError>)
    ensures
        extends(old(instructions)@, final(instructions)@),
        final(state).next_label() == old(state).next_label(),
        place.projection@.len() == 0 && place.local.0 < stack.offsets@.len() ==> r is Ok && final(instructions)@
            == old(instructions)@.push(Instruction::LeaRegRspOffset(Register::R10, stack.offsets@[place.local.0 as int])),
{
    proof {
        lemma_extends_refl(instructions@);
    }
    if place.projection.len() == 0 {
        let offset = stack.offset_for(place.local.0)?;
        let ghost before = instructions@;
        instructions.push(Instruction::LeaRegRspOffset(Register::R10, offset));
        proof {
            lemma_extends_push(before, Instruction::LeaRegRspOffset(Register::R10, offset));
        }
        return Ok(());
    }
    let (_element_ty, oob_label, done_label) = compute_projected_address(place, stack, layouts, state, instructions, label_prefix)?;
    let ghost mid = instructions@;
    instructions.push(Instruction::Jump(done_label.clone()));
    instructions.push(Instruction::Label(oob_label));
    instructions.push(Instruction::MovRegImm64(Register::R10, 0));
    instructions.push(Instruction::Label(done_label));
    proof {
        assert(extends(mid, instructions@)) by {
            assert(instructions@.take(mid.len() as int) =~= mid);
        }
        lemma_extends_trans(old(instructions)@, mid, instructions@);
    }
    Ok(())
}

/// Leaves the address of a place operand in the register; a constant has no address.
pub fn load_operand_address(
    operand: &Operand,
    destination: Register,
    stack: &StackLayout,
    layouts: &TypeLayouts,
    state: &mut LoweringState,
    instructions: &mut Vec<Instruction>,
) -> (r: Result<(), CodegenError>)
    ensures
        extends(old(instructions)@, final(instructions)@),
        final(state).next_label() == old(state).next_label(),
        operand is Constant ==> r is Err,
{
    proof {
        lemma_extends_refl(instructions@);
    }
    let place = match operand {
        Operand::Copy(place) | Operand::Move(place) => place,
        Operand::Constant(_) => return Err(CodegenError::new("native codegen cannot take an address of a constant operand")),
    };
    compute_place_address(place, stack, layouts, state, instructions, "operand_addr")?;
    if destination != Register::R10 {
        let ghost before = instructions@;
        instructions.push(Instruction::MovRegReg(destination, Register::R10));
        proof {
            lemma_extends_push(before, Instruction::MovRegReg(destination, Register::R10));
            lemma_extends_trans(old(instructions)@, before, instructions@);
        }
    }
    Ok(())
}

/// Copies an aggregate operand into a place, byte for byte.
pub fn copy_operand_into_place(
    function: &MirFunction,
    operand: &Operand,
    destination: &Place,
    stack: &StackLayout,
    layouts: &TypeLayouts,
    state: &mut LoweringState,
    instructions: &mut Vec<Instruction>,
) -> (r: Result<(), CodegenError>)
    ensures
        extends(old(instructions)@, final(instructions)@),
        final(state).next_label() == old(state).next_label(),
{
    proof {
        lemma_extends_refl(instructions@);
    }
    let destination_ty = place_type(function, destination, layouts)?;
    let size = type_stack_size(&destination_ty, layouts)?;
    if size == 0 {
        return Ok(());
    }
    load_operand_address(operand, Register::R11, stack, layouts, state, instructions)?;
    let ghost a = instructions@;
    let placed = compute_place_address(destination, stack, layouts, state, instructions, "copy_dst");
    proof {
        lemma_extends_trans(old(instructions)@, a, instructions@);
    }
    placed?;
    let ghost b = instructions@;
    copy_bytes_fixed(size, Register::R11, Register::R10, instructions)?;
    proof {
        assert(extends(b, instructions@)) by {
            assert(instructions@.take(b.len() as int) =~= b);
        }
        lemma_extends_trans(a, b, instructions@);
        lemma_extends_trans(old(instructions)@, a, instructions@);
    }
    Ok(())
}

/// The type of an operand: a constant's own type, or its place's.
pub fn operand_type(function: &MirFunction, operand: &Operand, layouts: &TypeLayouts) -> (r: Result<Type, CodegenError>)
    ensures
        operand matches Operand::Constant(c) ==> (r matches Ok(t) && crate::types::same_type(t, c.ty)),
{
    match operand {
        Operand::Constant(constant) => Ok(constant.ty.duplicate()),
        Operand::Copy(place) | Operand::Move(place) => place_type(function, place, layouts),
    }
}

/// Computes a scalar right-hand side into `rax`: the operand, then the operator on `rax`
/// (and `rcx` for binary ones). Aggregates, and operators native code lacks, are refused.
pub fn lower_rvalue(
    value: &Rvalue,
    stack: &StackLayout,
    layouts: &TypeLayouts,
    state: &mut LoweringState,
    instructions: &mut Vec<Instruction>,
) -> (r: Result<(), CodegenError>)
    ensures
        rvalue_code(*value, stack.offsets@) is Some ==> *final(state) == *old(state),
        extends(old(instructions)@, final(instructions)@),
        final(state).next_label() == old(state).next_label(),
        match *value {
            Rvalue::AggregateStruct { .. } | Rvalue::AggregateArray { .. } | Rvalue::RepeatArray { .. }
            | Rvalue::ResultOk(_) | Rvalue::ResultErr(_) => r is Err,
            Rvalue::UnaryOp { op, .. } => !(op@ == "Negate"@ || op@ == "Not"@) ==> r is Err,
            _ => true,
        },
        rvalue_code(*value, stack.offsets@) matches Some(c) ==> r is Ok && appended(old(instructions)@, final(instructions)@, c),
{
    proof {
        lemma_extends_refl(instructions@);
    }
    match value {
        Rvalue::Use(operand) => load_operand(operand, Register::Rax, stack, layouts, state, instructions),
        Rvalue::UnaryOp { op, operand } => {
            load_operand(operand, Register::Rax, stack, layouts, state, instructions)?;
            let ghost mid = instructions@;
            if str_eq(op.as_str(), "Negate") {
                instructions.push(Instruction::NegReg(Register::Rax));
            } else if str_eq(op.as_str(), "Not") {
                instructions.push(Instruction::CmpRegImm(Register::Rax, 0));
                instructions.push(Instruction::SetCondAl(Condition::Equal));
                instructions.push(Instruction::MovzxEaxAl);
            } else {
                return Err(message("unsupported unary operator `", op.as_str(), "`"));
            }
            proof {
                assert(extends(mid, instructions@)) by {
                    assert(instructions@.take(mid.len() as int) =~= mid);
                }
                lemma_extends_trans(old(instructions)@, mid, instructions@);
                let added = instructions@.skip(mid.len() as int);
                assert(instructions@ =~= mid + added);
                lemma_appended_pushes(mid, added);
                if rvalue_code(*value, stack.offsets@) is Some {
                    assert(code_view(added) =~= unary_op_code(op@)->0);
                    lemma_appended_chain(old(instructions)@, mid, instructions@, operand_code(*operand, Register::Rax, stack.offsets@)->0, code_view(added));
                }
            }
            Ok(())
        },
        Rvalue::BinaryOp { op, left, right } => {
            load_operand(left, Register::Rax, stack, layouts, state, instructions)?;
            let ghost a = instructions@;
            let loaded = load_operand(right, Register::Rcx, stack, layouts, state, instructions);
            proof {
                lemma_extends_trans(old(instructions)@, a, instructions@);
            }
            loaded?;
            let ghost mid = instructions@;
            let o = op.as_str();
            if str_eq(o, "Add") {
                instructions.push(Instruction::AddRegReg(Register::Rax, Register::Rcx));
            } else if str_eq(o, "Subtract") {
                instructions.push(Instruction::SubRegReg(Register::Rax, Register::Rcx));
            } else if str_eq(o, "Multiply") {
                instructions.push(Instruction::IMulRegReg(Register::Rax, Register::Rcx));
            } else if str_eq(o, "Divide") {
                instructions.push(Instruction::Cqo);
                instructions.push(Instruction::IDivReg(Register::Rcx));
            } else if str_eq(o, "And") {
                instructions.push(Instruction::AndRegReg(Register::Rax, Register::Rcx));
            } else if str_eq(o, "Or") {
                instructions.push(Instruction::OrRegReg(Register::Rax, Register::Rcx));
            } else if str_eq(o, "Equal") {
                emit_compare(Condition::Equal, instructions);
            } else if str_eq(o, "NotEqual") {
                emit_compare(Condition::NotEqual, instructions);
            } else if str_eq(o, "Less") {
                emit_compare(Condition::Less, instructions);
            } else if str_eq(o, "LessEqual") {
                emit_compare(Condition::LessEqual, instructions);
            } else if str_eq(o, "Greater") {
                emit_compare(Condition::Greater, instructions);
            } else if str_eq(o, "GreaterEqual") {
                emit_compare(Condition::GreaterEqual, instructions);
            } else {
                proof {
                    lemma_extends_trans(old(instructions)@, a, instructions@);
                }
                return Err(message("native codegen does not yet support binary operator `", o, "`"));
            }
            proof {
                assert(extends(mid, instructions@)) by {
                    assert(instructions@.take(mid.len() as int) =~= mid);
                }
                lemma_extends_trans(a, mid, instructions@);
                lemma_extends_trans(old(instructions)@, a, instructions@);
                let added = instructions@.skip(mid.len() as int);
                assert(instructions@ =~= mid + added);
                lemma_appended_pushes(mid, added);
                if rvalue_code(*value, stack.offsets@) is Some {
                    assert(code_view(added) =~= binary_op_code(op@)->0);
                    let lc = operand_code(*left, Register::Rax, stack.offsets@)->0;
                    let rc = operand_code(*right, Register::Rcx, stack.offsets@)->0;
                    lemma_appended_chain(old(instructions)@, a, mid, lc, rc);
                    lemma_appended_chain(old(instructions)@, mid, instructions@, lc + rc, code_view(added));
                }
            }
            Ok(())
        },
        Rvalue::AggregateStruct { .. } => Err(CodegenError::new("native codegen does not yet support struct aggregates")),
        Rvalue::AggregateArray { .. } | Rvalue::RepeatArray { .. } => {
            Err(CodegenError::new("native codegen only supports array aggregates in direct assignments"))
        },
        Rvalue::ResultOk(_) | Rvalue::ResultErr(_) => Err(CodegenError::new("native codegen does not yet support result aggregates")),
    }
}

/// The place of element `index` of a local array.
fn element_place(local: LocalId, index: usize) -> (p: Place)
    ensures
        p.local == local,
        p.projection@.len() == 1,
        match p.projection@[0] {
            ProjectionElem::Index(Operand::Constant(c)) => c.ty == Type::Int && match c.value {
                ConstantValue::Integer(t) => t@ == crate::text::decimal(index as nat),
                _ => false,
            },
            _ => false,
        },
{
    let mut digits = decimal_chars(index as u64);
    let text = string_from_chars(&digits);
    Place {
        local,
        projection: vec![ProjectionElem::Index(Operand::Constant(Constant { ty: Type::Int, value: ConstantValue::Integer(text) }))],
    }
}

/// Whether arrays of the type can be built element by element.
fn is_flat_element(ty: &Type) -> (r: bool)
    ensures
        r == (*ty is Byte || *ty is Int || *ty is Bool || *ty is String || *ty is Enum),
{
    match ty {
        Type::Byte | Type::Int | Type::Bool | Type::String | Type::Enum(_) => true,
        _ => false,
    }
}

/// Stores each field of a struct literal into its place in the destination.
pub fn lower_struct_aggregate_assign(
    function: &MirFunction,
    place: &Place,
    fields: &Vec<(String, Operand)>,
    stack: &StackLayout,
    layouts: &TypeLayouts,
    state: &mut LoweringState,
    instructions: &mut Vec<Instruction>,
) -> (r: Result<(), CodegenError>)
    ensures
        extends(old(instructions)@, final(instructions)@),
        final(state).next_label() == old(state).next_label(),
{
    proof {
        lemma_extends_refl(instructions@);
    }
    let destination_ty = place_type(function, place, layouts)?;
    match destination_ty {
        Type::Struct(_) => {},
        _ => return Err(CodegenError::new("struct aggregate assignment requires a struct destination")),
    }
    let mut i: usize = 0;
    while i < fields.len()
        invariant
            i <= fields@.len(),
            extends(old(instructions)@, instructions@),
            state.next_label() == old(state).next_label(),
        decreases fields@.len() - i,
    {
        let ghost before = instructions@;
        let mut field_place = copy_place(place);
        field_place.projection.push(ProjectionElem::Field(fields[i].0.clone()));
        let field_ty = place_type(function, &field_place, layouts)?;
        let step = if is_supported_scalar_type(&field_ty) {
            match load_operand(&fields[i].1, Register::Rax, stack, layouts, state, instructions) {
                Ok(()) => {
                    let ghost mid = instructions@;
                    let stored = store_scalar_place(function, &field_place, Register::Rax, stack, layouts, state, instructions);
                    proof {
                        lemma_extends_trans(before, mid, instructions@);
                    }
                    stored
                },
                Err(e) => Err(e),
            }
        } else {
            copy_operand_into_place(function, &fields[i].1, &field_place, stack, layouts, state, instructions)
        };
        proof {
            lemma_extends_trans(old(instructions)@, before, instructions@);
        }
        step?;
        i += 1;
    }
    Ok(())
}

/// Stores each element of an array literal into its slot of a local array of the same
/// length.
pub fn lower_array_aggregate_assign(
    function: &MirFunction,
    place: &Place,
    elements: &Vec<Operand>,
    stack: &StackLayout,
    layouts: &TypeLayouts,
    state: &mut LoweringState,
    instructions: &mut Vec<Instruction>,
) -> (r: Result<(), CodegenError>)
    ensures
        extends(old(instructions)@, final(instructions)@),
        final(state).next_label() == old(state).next_label(),
        place.projection@.len() != 0 ==> r is Err && final(instructions)@ == old(instructions)@,
{
    proof {
        lemma_extends_refl(instructions@);
    }
    if place.projection.len() != 0 {
        return Err(CodegenError::new("native codegen only supports assigning array aggregates to array locals"));
    }
    if place.local.0 >= function.locals.len() {
        return Err(missing_local(place.local.0));
    }
    let (element, length) = match &function.locals[place.local.0].ty {
        Type::Array(element, length) => (element, *length),
        _ => return Err(CodegenError::new("array aggregate assignment requires an array destination")),
    };
    if elements.len() != length {
        let mut text = chars_of("array aggregate length mismatch: expected ");
        let mut expected = decimal_chars(length as u64);
        text.append(&mut expected);
        push_str_chars(&mut text, ", found ");
        let mut found = decimal_chars(elements.len() as u64);
        text.append(&mut found);
        return Err(CodegenError::from_chars(&text));
    }
    let mut index: usize = 0;
    while index < elements.len()
        invariant
            index <= elements@.len(),
            place.projection@.len() == 0,
            extends(old(instructions)@, instructions@),
            state.next_label() == old(state).next_label(),
        decreases elements@.len() - index,
    {
        let ghost before = instructions@;
        let loaded = load_operand(&elements[index], Register::Rax, stack, layouts, state, instructions);
        proof {
            lemma_extends_trans(old(instructions)@, before, instructions@);
        }
        loaded?;
        let target = element_place(place.local, index);
        if !is_flat_element(element) {
            return Err(CodegenError::new("native codegen does not support nested array elements yet"));
        }
        let ghost mid = instructions@;
        let stored = store_scalar_place(function, &target, Register::Rax, stack, layouts, state, instructions);
        proof {
            lemma_extends_trans(old(instructions)@, mid, instructions@);
        }
        stored?;
        index += 1;
    }
    Ok(())
}

/// Stores the same value into every slot of a local array of the given length.
pub fn lower_repeat_array_assign(
    function: &MirFunction,
    place: &Place,
    value: &Operand,
    length: usize,
    stack: &StackLayout,
    layouts: &TypeLayouts,
    state: &mut LoweringState,
    instructions: &mut Vec<Instruction>,
) -> (r: Result<(), CodegenError>)
    ensures
        extends(old(instructions)@, final(instructions)@),
        final(state).next_label() == old(state).next_label(),
{
    proof {
        lemma_extends_refl(instructions@);
    }
    if place.local.0 >= function.locals.len() {
        return Err(missing_local(place.local.0));
    }
    let (element, expected_len) = match &function.locals[place.local.0].ty {
        Type::Array(element, length) => (element, *length),
        _ => return Err(CodegenError::new("repeat array assignment requires an array destination")),
    };
    if length != expected_len {
        let mut text = chars_of("repeat array length mismatch: expected ");
        let mut expected = decimal_chars(expected_len as u64);
        text.append(&mut expected);
        push_str_chars(&mut text, ", found ");
        let mut found = decimal_chars(length as u64);
        text.append(&mut found);
        return Err(CodegenError::from_chars(&text));
    }
    let mut index: usize = 0;
    while index < length
        invariant
            index <= length,
            extends(old(instructions)@, instructions@),
            state.next_label() == old(state).next_label(),
        decreases length - index,
    {
        let ghost before = instructions@;
        let loaded = load_operand(value, Register::Rax, stack, layouts, state, instructions);
        proof {
            lemma_extends_trans(old(instructions)@, before, instructions@);
        }
        loaded?;
        let target = element_place(place.local, index);
        if !is_flat_element(element) {
            return Err(CodegenError::new("native codegen does not support nested array elements yet"));
        }
        let ghost mid = instructions@;
        let stored = store_scalar_place(function, &target, Register::Rax, stack, layouts, state, instructions);
        proof {
            lemma_extends_trans(old(instructions)@, mid, instructions@);
        }
        stored?;
        index += 1;
    }
    Ok(())
}

/// Lowers an assignment: aggregates field by field or element by element, scalars through
/// `rax`, and other values by copying their bytes.
pub fn lower_assign(
    function: &MirFunction,
    place: &Place,
    value: &Rvalue,
    stack: &StackLayout,
    layouts: &TypeLayouts,
    state: &mut LoweringState,
    instructions: &mut Vec<Instruction>,
) -> (r: Result<(), CodegenError>)
    ensures
        assign_code(*function, *place, *value, stack.offsets@) is Some ==> *final(state) == *old(state),
        extends(old(instructions)@, final(instructions)@),
        final(state).next_label() == old(state).next_label(),
        !(place.local.0 < function.locals@.len() && sized(layouts.structs@, function.locals@[place.local.0 as int].ty))
            ==> r is Err,
        assign_code(*function, *place, *value, stack.offsets@) matches Some(c) ==> r is Ok && appended(
            old(instructions)@,
            final(instructions)@,
            c,
        ),
{
    proof {
        lemma_extends_refl(instructions@);
        if assign_code(*function, *place, *value, stack.offsets@) is Some {
            let t = function.locals@[place.local.0 as int].ty;
            assert(type_size(layouts.structs@, t) == Some(8nat));
            assert(sized(layouts.structs@, t));
            assert(!(*value is AggregateArray || *value is RepeatArray || *value is AggregateStruct));
        }
    }
    ensure_supported_local_type(function, layouts, place.local.0)?;
    match value {
        Rvalue::AggregateArray { elements } => lower_array_aggregate_assign(function, place, elements, stack, layouts, state, instructions),
        Rvalue::RepeatArray { value, length } => lower_repeat_array_assign(
            function,
            place,
            value,
            *length,
            stack,
            layouts,
            state,
            instructions,
        ),
        Rvalue::AggregateStruct { path: _, fields } => lower_struct_aggregate_assign(function, place, fields, stack, layouts, state, instructions),
        _ => {
            let value_ty = place_type(function, place, layouts)?;
            proof {
                if assign_code(*function, *place, *value, stack.offsets@) is Some {
                    assert(crate::types::same_type(value_ty, function.locals@[place.local.0 as int].ty));
                    assert(is_scalar(value_ty));
                }
            }
            if !is_supported_scalar_type(&value_ty) {
                match value {
                    Rvalue::Use(operand) => {
                        return copy_operand_into_place(function, operand, place, stack, layouts, state, instructions);
                    },
                    _ => {
                        let mut text = chars_of("native codegen does not yet support assigning `");
                        let name = value_ty.display_name();
                        push_str_chars(&mut text, name.as_str());
                        push_str_chars(&mut text, "` through `");
                        push_str_chars(&mut text, function.locals[place.local.0].name.as_str());
                        push_str_chars(&mut text, "`");
                        return Err(CodegenError::from_chars(&text));
                    },
                }
            }
            lower_rvalue(value, stack, layouts, state, instructions)?;
            let ghost mid = instructions@;
            let stored = store_scalar_place(function, place, Register::Rax, stack, layouts, state, instructions);
            proof {
                lemma_extends_trans(old(instructions)@, mid, instructions@);
                if assign_code(*function, *place, *value, stack.offsets@) is Some {
                    let x = instructions@.last();
                    assert(instructions@ =~= mid + seq![x]);
                    lemma_appended_pushes(mid, seq![x]);
                    assert(code_view(seq![x]) =~= seq![Ins::MovStackReg(stack.offsets@[place.local.0 as int], Register::Rax)]);
                    lemma_appended_chain(old(instructions)@, mid, instructions@, rvalue_code(*value, stack.offsets@)->0, code_view(seq![x]));
                    assert(rvalue_code(*value, stack.offsets@)->0 + code_view(seq![x]) =~= assign_code(*function, *place, *value, stack.offsets@)->0);
                    assert(stored is Ok);
                }
            }
            stored
        },
    }
}

/// Puts an argument where the convention wants argument `abi_index`: in its register, or
/// in its outgoing stack slot.
pub fn emit_store_call_argument(
    abi_index: usize,
    value: Register,
    stack: &StackLayout,
    target: Target,
    instructions: &mut Vec<Instruction>,
) -> (r: Result<(), CodegenError>)
    ensures
        extends(old(instructions)@, final(instructions)@),
        abi_index < argument_registers_of(target).len() ==> r is Ok && final(instructions)@ == if argument_registers_of(
            target,
        )[abi_index as int] == value {
            old(instructions)@
        } else {
            old(instructions)@.push(Instruction::MovRegReg(argument_registers_of(target)[abi_index as int], value))
        },
{
    proof {
        lemma_extends_refl(instructions@);
    }
    let registers = argument_registers(target);
    if abi_index < registers.len() {
        let register = registers[abi_index];
        if register != value {
            let ghost before = instructions@;
            instructions.push(Instruction::MovRegReg(register, value));
            proof {
                lemma_extends_push(before, Instruction::MovRegReg(register, value));
            }
        }
        return Ok(());
    }
    let stack_index = abi_index - registers.len();
    let offset = stack.outgoing_arg_offset(target, stack_index)?;
    let ghost before = instructions@;
    instructions.push(Instruction::MovStackReg(offset, value));
    proof {
        lemma_extends_push(before, Instruction::MovStackReg(offset, value));
    }
    Ok(())
}

/// The name a call operand names directly, if it is a function constant.
pub fn direct_callee_name(callee: &Operand) -> (r: Option<&str>)
    ensures
        r matches Some(n) ==> crate::mir::determinism::callee_of(*callee) == Some(n@),
        r is None ==> crate::mir::determinism::callee_of(*callee) is None,
{
    match callee {
        Operand::Constant(constant) => match &constant.value {
            ConstantValue::Function(name) => Some(name.as_str()),
            _ => None,
        },
        _ => None,
    }
}

/// Lowers a call: the hidden return pointer for a callee that returns through memory,
/// then each argument by value or by address, the call, the scalar result stored, and the
/// jump to the next block. Only direct calls of the program's functions are supported.
pub fn lower_call_terminator(
    function: &MirFunction,
    callee: &Operand,
    args: &Vec<Operand>,
    destination: &Option<Place>,
    target_block: BasicBlockId,
    stack: &StackLayout,
    program: &crate::mir::nodes::MirProgram,
    names: &Vec<String>,
    layouts: &TypeLayouts,
    target: Target,
    state: &mut LoweringState,
    instructions: &mut Vec<Instruction>,
) -> (r: Result<(), CodegenError>)
    requires
        names@.map_values(|s: String| s@) == crate::mir::determinism::names_of(*program),
    ensures
        call_code(*function, *program, target, *callee, args@, *destination, target_block, stack.offsets@) is Some
            ==> *final(state) == *old(state),
        extends(old(instructions)@, final(instructions)@),
        final(state).next_label() == old(state).next_label(),
        crate::mir::determinism::callee_of(*callee) is None ==> r is Err,
        crate::mir::determinism::callee_of(*callee) matches Some(n) && crate::mir::determinism::last_index(
            crate::mir::determinism::names_of(*program),
            n,
        ) is None ==> r is Err,
        call_code(*function, *program, target, *callee, args@, *destination, target_block, stack.offsets@) matches Some(c)
            ==> r is Ok && appended(old(instructions)@, final(instructions)@, c),
{
    let ghost ok = call_code(*function, *program, target, *callee, args@, *destination, target_block, stack.offsets@) is Some;
    let ghost regs = argument_registers_of(target);
    let ghost offsets = stack.offsets@;
    proof {
        lemma_extends_refl(instructions@);
        assert(instructions@ + Seq::<Instruction>::empty() =~= instructions@);
        lemma_appended_pushes(instructions@, Seq::empty());
        assert(code_view(Seq::<Instruction>::empty()) =~= Seq::<Ins>::empty());
        assert(forall|i: int| 0 <= i < regs.len() ==> regs[i] != Register::Rax);
    }
    let callee_name = match direct_callee_name(callee) {
        Some(name) => name,
        None => return Err(CodegenError::new("native codegen only supports direct function calls for now")),
    };
    let index = match crate::mir::determinism::find_last(names, callee_name) {
        Some(i) => i,
        None => return Err(message("native codegen could not find callee `", callee_name, "`")),
    };
    proof {
        crate::mir::determinism::lemma_last_index_bound(crate::mir::determinism::names_of(*program), callee_name@);
    }
    let callee_function = &program.functions[index];
    let ghost k = index as int;
    let label = super::routines::function_label(callee_function);
    if args.len() >= usize::MAX - 2 {
        return Err(CodegenError::new("native codegen cannot pass that many call arguments"));
    }
    let mut abi_index: usize = 0;
    let returns_indirect = is_pass_indirect_type(&callee_function.signature.return_type, layouts);
    if returns_indirect {
        let destination_place = match destination {
            Some(p) => p,
            None => {
                return Err(message("native codegen requires a destination for aggregate return from `", callee_name, "`"));
            },
        };
        compute_place_address(destination_place, stack, layouts, state, instructions, "call_ret_dst")?;
        let ghost mid = instructions@;
        let stored = emit_store_call_argument(abi_index, Register::R10, stack, target, instructions);
        proof {
            lemma_extends_trans(old(instructions)@, mid, instructions@);
        }
        stored?;
        abi_index = 1;
    }
    let mut arg_index: usize = 0;
    while arg_index < args.len()
        invariant
            arg_index <= args@.len(),
            args@.len() < usize::MAX - 2,
            abi_index <= arg_index + 1,
            extends(old(instructions)@, instructions@),
            state.next_label() == old(state).next_label(),
            regs == argument_registers_of(target),
            offsets == stack.offsets@,
            ok == (call_code(*function, *program, target, *callee, args@, *destination, target_block, stack.offsets@) is Some),
            ok ==> *state == *old(state),
            forall|i: int| 0 <= i < regs.len() ==> regs[i] != Register::Rax,
            ok ==> {
                &&& abi_index == arg_index
                &&& args@.len() <= regs.len()
                &&& args@.len() <= callee_function.signature.params@.len()
                &&& forall|i: int| 0 <= i < args@.len() ==> #[trigger] is_scalar(callee_function.signature.params@[i])
                &&& args_code(args@, regs, offsets, args@.len() as int) is Some
                &&& args_code(args@, regs, offsets, arg_index as int) is Some
                &&& appended(old(instructions)@, instructions@, args_code(args@, regs, offsets, arg_index as int)->0)
            },
        decreases args@.len() - arg_index,
    {
        proof {
            if ok {
                lemma_args_code_prefix(args@, regs, offsets, arg_index + 1, args@.len() as int);
                assert(is_scalar(callee_function.signature.params@[arg_index as int]));
            }
        }
        let operand = &args[arg_index];
        let pass_indirect = if arg_index < callee_function.signature.params.len() {
            is_pass_indirect_type(&callee_function.signature.params[arg_index], layouts)
        } else {
            match operand_type(function, operand, layouts) {
                Ok(ty) => is_pass_indirect_type(&ty, layouts),
                Err(_) => false,
            }
        };
        let ghost before = instructions@;
        proof {
            if ok {
                assert(!pass_indirect);
                assert(args_code(args@, regs, offsets, arg_index + 1) is Some);
                assert(operand_code(args@[arg_index as int], Register::Rax, offsets) is Some);
                assert(abi_index < regs.len());
            }
        }
        let loaded = if pass_indirect {
            load_operand_address(operand, Register::Rax, stack, layouts, state, instructions)
        } else {
            load_operand(operand, Register::Rax, stack, layouts, state, instructions)
        };
        proof {
            lemma_extends_trans(old(instructions)@, before, instructions@);
        }
        loaded?;
        let ghost mid = instructions@;
        let stored = emit_store_call_argument(abi_index, Register::Rax, stack, target, instructions);
        proof {
            lemma_extends_trans(old(instructions)@, mid, instructions@);
            if ok {
                let oc = operand_code(args@[arg_index as int], Register::Rax, offsets)->0;
                let x = instructions@.last();
                assert(instructions@ =~= mid + seq![x]);
                lemma_appended_pushes(mid, seq![x]);
                assert(code_view(seq![x]) =~= seq![Ins::MovRegReg(regs[arg_index as int], Register::Rax)]);
                let prev = args_code(args@, regs, offsets, arg_index as int)->0;
                lemma_appended_chain(old(instructions)@, before, mid, prev, oc);
                lemma_appended_chain(old(instructions)@, mid, instructions@, prev + oc, code_view(seq![x]));
                assert(prev + oc + code_view(seq![x]) =~= args_code(args@, regs, offsets, arg_index + 1)->0);
            }
        }
        stored?;
        abi_index += 1;
        arg_index += 1;
    }
    let ghost f = program.functions@[k];
    let ghost store = result_store_code(*destination, offsets);
    let ghost acc = args_code(args@, regs, offsets, args@.len() as int)->0;
    let ghost before_call = instructions@;
    instructions.push(Instruction::Call(label));
    proof {
        lemma_extends_push(before_call, instructions@.last());
        lemma_extends_trans(old(instructions)@, before_call, instructions@);
        if ok {
            let x = instructions@.last();
            assert(instructions@ =~= before_call + seq![x]);
            lemma_appended_pushes(before_call, seq![x]);
            assert(code_view(seq![x]) =~= seq![Ins::Call(fn_label(f))]);
            lemma_appended_chain(old(instructions)@, before_call, instructions@, acc, code_view(seq![x]));
        }
    }
    let ghost after_call = instructions@;
    if !returns_indirect {
        match destination {
            Some(place) => {
                ensure_supported_local_type(function, layouts, place.local.0)?;
                let ghost mid = instructions@;
                let stored = store_scalar_place(function, place, Register::Rax, stack, layouts, state, instructions);
                proof {
                    lemma_extends_trans(old(instructions)@, mid, instructions@);
                }
                stored?;
            },
            None => {},
        }
    }
    let ghost before_jump = instructions@;
    proof {
        if ok {
            let added = before_jump.skip(after_call.len() as int);
            assert(before_jump =~= after_call + added);
            lemma_appended_pushes(after_call, added);
            assert(code_view(added) =~= store);
            lemma_appended_chain(old(instructions)@, after_call, before_jump, acc + seq![Ins::Call(fn_label(f))], store);
        }
    }
    instructions.push(Instruction::Jump(super::routines::block_label(function, target_block)));
    proof {
        lemma_extends_push(before_jump, instructions@.last());
        lemma_extends_trans(old(instructions)@, before_jump, instructions@);
        if ok {
            let x = instructions@.last();
            assert(instructions@ =~= before_jump + seq![x]);
            lemma_appended_pushes(before_jump, seq![x]);
            assert(code_view(seq![x]) =~= seq![Ins::Jump(block_label_text(*function, target_block))]);
            lemma_appended_chain(
                old(instructions)@,
                before_jump,
                instructions@,
                acc + seq![Ins::Call(fn_label(f))] + store,
                code_view(seq![x]),
            );
        }
    }
    Ok(())
}

/// Moves incoming arguments into their locals' slots: first the hidden return pointer,
/// then each parameter, those passed by address copied byte for byte.
pub fn spill_params(
    function: &MirFunction,
    stack: &StackLayout,
    layouts: &TypeLayouts,
    target: Target,
    instructions: &mut Vec<Instruction>,
) -> (r: Result<(), CodegenError>)
    ensures
        extends(old(instructions)@, final(instructions)@),
        params_in_registers(*function, stack.offsets@, stack.return_ptr_offset, target) ==> r is Ok && appended(
            old(instructions)@,
            final(instructions)@,
            params_code(super::runtime::argument_registers_of(target), stack.offsets@, function.signature.params@.len() as int),
        ),
{
    let ghost ok = params_in_registers(*function, stack.offsets@, stack.return_ptr_offset, target);
    proof {
        lemma_extends_refl(instructions@);
        assert(instructions@ + Seq::<Instruction>::empty() =~= instructions@);
        lemma_appended_pushes(instructions@, Seq::empty());
        assert(code_view(Seq::<Instruction>::empty()) =~= Seq::<Ins>::empty());
    }
    let registers = argument_registers(target);
    let mut abi_index: usize = 0;
    match stack.return_ptr_offset {
        Some(return_ptr_offset) => {
            let ghost before = instructions@;
            instructions.push(Instruction::MovRegReg(Register::Rax, registers[0]));
            instructions.push(Instruction::MovStackReg(return_ptr_offset, Register::Rax));
            proof {
                assert(extends(before, instructions@)) by {
                    assert(instructions@.take(before.len() as int) =~= before);
                }
            }
            abi_index = 1;
        },
        None => {},
    }
    let count = function.signature.params.len();
    let mut index: usize = 0;
    while index < count && index + 1 < function.locals.len()
        invariant
            index <= count,
            count == function.signature.params@.len(),
            abi_index <= index + 1,
            registers@ == argument_registers_of(target),
            extends(old(instructions)@, instructions@),
            ok == params_in_registers(*function, stack.offsets@, stack.return_ptr_offset, target),
            ok ==> abi_index == index && appended(
                old(instructions)@,
                instructions@,
                params_code(argument_registers_of(target), stack.offsets@, index as int),
            ),
        decreases count - index,
    {
        let local_index = index + 1;
        let ghost before = instructions@;
        if abi_index < registers.len() {
            instructions.push(Instruction::MovRegReg(Register::Rax, registers[abi_index]));
        } else {
            let stack_index = abi_index - registers.len();
            let offset = stack.incoming_arg_offset(target, stack_index)?;
            instructions.push(Instruction::MovRegStack(Register::Rax, offset));
        }
        let slot = match stack.offset_for(local_index) {
            Ok(o) => o,
            Err(e) => {
                proof {
                    assert(extends(before, instructions@)) by {
                        assert(instructions@.take(before.len() as int) =~= before);
                    }
                    lemma_extends_trans(old(instructions)@, before, instructions@);
                }
                return Err(e);
            },
        };
        let param_ty = &function.signature.params[index];
        if is_pass_indirect_type(param_ty, layouts) {
            let size = match type_stack_size(param_ty, layouts) {
                Ok(size) => size,
                Err(e) => {
                    proof {
                        assert(extends(before, instructions@)) by {
                            assert(instructions@.take(before.len() as int) =~= before);
                        }
                        lemma_extends_trans(old(instructions)@, before, instructions@);
                    }
                    return Err(e);
                },
            };
            instructions.push(Instruction::LeaRegRspOffset(Register::R10, slot));
            instructions.push(Instruction::MovRegReg(Register::R11, Register::Rax));
            let ghost mid = instructions@;
            copy_bytes_fixed(size, Register::R11, Register::R10, instructions)?;
            proof {
                assert(extends(mid, instructions@)) by {
                    assert(instructions@.take(mid.len() as int) =~= mid);
                }
                assert(extends(before, mid)) by {
                    assert(mid.take(before.len() as int) =~= before);
                }
                lemma_extends_trans(before, mid, instructions@);
            }
        } else {
            instructions.push(Instruction::MovStackReg(slot, Register::Rax));
            proof {
                assert(extends(before, instructions@)) by {
                    assert(instructions@.take(before.len() as int) =~= before);
                }
            }
        }
        proof {
            lemma_extends_trans(old(instructions)@, before, instructions@);
            if ok {
                assert(is_scalar(function.signature.params@[index as int]));
                let added = instructions@.skip(before.len() as int);
                assert(instructions@ =~= before + added);
                lemma_appended_pushes(before, added);
                assert(code_view(added) =~= seq![
                    Ins::MovRegReg(Register::Rax, argument_registers_of(target)[index as int]),
                    Ins::MovStackReg(stack.offsets@[index + 1], Register::Rax),
                ]);
                lemma_appended_chain(
                    old(instructions)@,
                    before,
                    instructions@,
                    params_code(argument_registers_of(target), stack.offsets@, index as int),
                    code_view(added),
                );
            }
        }
        abi_index += 1;
        index += 1;
    }
    proof {
        if ok {
            assert(index == count);
        }
    }
    Ok(())
}

/// The epilogue: the result in `rax` (copied through the hidden pointer for a struct),
/// the frame released, and `ret`.
pub fn emit_function_return(function: &MirFunction, stack: &StackLayout, layouts: &TypeLayouts, instructions: &mut Vec<Instruction>)
    -> (r: Result<(), CodegenError>)
    ensures
        extends(old(instructions)@, final(instructions)@),
        *function.signature.return_type is Unit ==> r is Ok && final(instructions)@ == old(instructions)@.push(
            Instruction::MovRegImm64(Register::Rax, 0),
        ) + (if stack.total_size > 0 {
            seq![Instruction::AddRsp(stack.total_size as u32)]
        } else {
            Seq::empty()
        }).push(Instruction::Ret),
        match *function.signature.return_type {
            Type::Int | Type::Byte | Type::Bool | Type::String | Type::Enum(_) | Type::Struct(_) | Type::Unit => true,
            _ => r is Err,
        },
        return_code(*function, stack.offsets@, stack.total_size) matches Some(c) ==> r is Ok && appended(
            old(instructions)@,
            final(instructions)@,
            c,
        ),
{
    proof {
        lemma_extends_refl(instructions@);
    }
    let ghost start = instructions@;
    match &*function.signature.return_type {
        Type::Int | Type::Byte | Type::Bool | Type::String | Type::Enum(_) => {
            let offset = stack.offset_for(function.return_local.0)?;
            instructions.push(Instruction::MovRegStack(Register::Rax, offset));
        },
        Type::Struct(_) => {
            let return_ptr_offset = match stack.return_ptr_offset {
                Some(o) => o,
                None => return Err(CodegenError::new("native codegen missing hidden return pointer slot")),
            };
            let offset = stack.offset_for(function.return_local.0)?;
            let size = type_stack_size(&function.signature.return_type, layouts)?;
            instructions.push(Instruction::LeaRegRspOffset(Register::R10, offset));
            instructions.push(Instruction::MovRegStack(Register::R11, return_ptr_offset));
            copy_bytes_fixed(size, Register::R10, Register::R11, instructions)?;
            instructions.push(Instruction::MovRegImm64(Register::Rax, 0));
        },
        Type::Unit => instructions.push(Instruction::MovRegImm64(Register::Rax, 0)),
        other => {
            let name = other.display_name();
            return Err(message(
                "native codegen currently only supports returns of scalar types, structs, or `()`, found `",
                name.as_str(),
                "`",
            ));
        },
    }
    let ghost body = instructions@;
    if stack.total_size > 0 {
        instructions.push(Instruction::AddRsp(#[verifier::truncate] (stack.total_size as u32)));
    }
    instructions.push(Instruction::Ret);
    proof {
        assert(instructions@.take(start.len() as int) =~= start);
        if *function.signature.return_type is Unit {
            assert(instructions@ =~= start.push(Instruction::MovRegImm64(Register::Rax, 0)) + (if stack.total_size > 0 {
                seq![Instruction::AddRsp(stack.total_size as u32)]
            } else {
                Seq::empty()
            }).push(Instruction::Ret));
        }
        if return_code(*function, stack.offsets@, stack.total_size) is Some {
            let added = instructions@.skip(start.len() as int);
            assert(instructions@ =~= start + added);
            lemma_appended_pushes(start, added);
            assert(code_view(added) =~= return_code(*function, stack.offsets@, stack.total_size)->0);
        }
    }
    Ok(())
}

/// Lowers a block: its assignments, then its terminator. `match`, `for` iterators and `?`
/// have no native lowering yet.
pub fn lower_block(
    function: &MirFunction,
    block: &BasicBlockData,
    stack: &StackLayout,
    program: &crate::mir::nodes::MirProgram,
    names: &Vec<String>,
    layouts: &TypeLayouts,
    target: Target,
    state: &mut LoweringState,
    instructions: &mut Vec<Instruction>,
) -> (r: Result<(), CodegenError>)
    requires
        names@.map_values(|s: String| s@) == crate::mir::determinism::names_of(*program),
    ensures
        block_code(*function, *program, target, *block, stack.offsets@, stack.total_size) is Some ==> *final(state) == *old(
            state,
        ),
        extends(old(instructions)@, final(instructions)@),
        final(state).next_label() == old(state).next_label(),
        block.terminator is Match || block.terminator is IterNext || block.terminator is Try ==> r is Err,
        block_code(*function, *program, target, *block, stack.offsets@, stack.total_size) matches Some(c) ==> r is Ok && appended(
            old(instructions)@,
            final(instructions)@,
            c,
        ),
{
    let ghost supported = block_code(*function, *program, target, *block, stack.offsets@, stack.total_size) is Some;
    let ghost stmts = block.statements@;
    let ghost offsets = stack.offsets@;
    proof {
        lemma_extends_refl(instructions@);
        assert(instructions@ + Seq::<Instruction>::empty() =~= instructions@);
        lemma_appended_pushes(instructions@, Seq::empty());
        assert(code_view(Seq::<Instruction>::empty()) =~= Seq::<Ins>::empty());
    }
    let mut i: usize = 0;
    while i < block.statements.len()
        invariant
            i <= block.statements@.len(),
            stmts == block.statements@,
            offsets == stack.offsets@,
            supported == (block_code(*function, *program, target, *block, stack.offsets@, stack.total_size) is Some),
            extends(old(instructions)@, instructions@),
            state.next_label() == old(state).next_label(),
            names@.map_values(|s: String| s@) == crate::mir::determinism::names_of(*program),
            supported ==> *state == *old(state),
            supported ==> statements_code(*function, stmts, offsets, i as int) is Some && appended(
                old(instructions)@,
                instructions@,
                statements_code(*function, stmts, offsets, i as int)->0,
            ),
        decreases block.statements@.len() - i,
    {
        proof {
            if supported {
                lemma_statements_code_prefix(*function, stmts, offsets, i + 1, stmts.len() as int);
            }
        }
        match &block.statements[i].kind {
            StatementKind::Assign(place, value) => {
                let ghost before = instructions@;
                let lowered = lower_assign(function, place, value, stack, layouts, state, instructions);
                proof {
                    lemma_extends_trans(old(instructions)@, before, instructions@);
                    if supported {
                        lemma_appended_chain(
                            old(instructions)@,
                            before,
                            instructions@,
                            statements_code(*function, stmts, offsets, i as int)->0,
                            assign_code(*function, *place, *value, offsets)->0,
                        );
                    }
                }
                lowered?;
            },
            _ => {},
        }
        i += 1;
    }
    let ghost before = instructions@;
    let result = match &block.terminator {
        TerminatorKind::Goto { target: next } => {
            instructions.push(Instruction::Jump(super::routines::block_label(function, *next)));
            proof {
                lemma_extends_push(before, instructions@.last());
            }
            Ok(())
        },
        TerminatorKind::Branch { condition, then_bb, else_bb } => {
            match load_operand(condition, Register::Rax, stack, layouts, state, instructions) {
                Ok(()) => {
                    let ghost mid = instructions@;
                    instructions.push(Instruction::CmpRegImm(Register::Rax, 0));
                    instructions.push(Instruction::JumpIf(Condition::NotEqual, super::routines::block_label(function, *then_bb)));
                    instructions.push(Instruction::Jump(super::routines::block_label(function, *else_bb)));
                    proof {
                        assert(extends(mid, instructions@)) by {
                            assert(instructions@.take(mid.len() as int) =~= mid);
                        }
                        lemma_extends_trans(before, mid, instructions@);
                    }
                    Ok(())
                },
                Err(e) => Err(e),
            }
        },
        TerminatorKind::Return => emit_function_return(function, stack, layouts, instructions),
        TerminatorKind::Unreachable => {
            instructions.push(Instruction::Ud2);
            proof {
                lemma_extends_push(before, Instruction::Ud2);
            }
            Ok(())
        },
        TerminatorKind::Match { .. } => {
            proof {
                lemma_extends_refl(before);
            }
            Err(CodegenError::new("native codegen does not yet support MIR `match` terminators"))
        },
        TerminatorKind::Call { callee, args, destination, target: next } => lower_call_terminator(
            function,
            callee,
            args,
            destination,
            *next,
            stack,
            program,
            names,
            layouts,
            target,
            state,
            instructions,
        ),
        TerminatorKind::IterNext { .. } => {
            proof {
                lemma_extends_refl(before);
            }
            Err(CodegenError::new("native codegen does not yet support MIR `for` iterators"))
        },
        TerminatorKind::Try { .. } => {
            proof {
                lemma_extends_refl(before);
            }
            Err(CodegenError::new("native codegen does not yet support MIR `?` lowering"))
        },
    };
    proof {
        lemma_extends_trans(old(instructions)@, before, instructions@);
        if supported {
            let tc = terminator_code(*function, *program, target, block.terminator, offsets, stack.total_size)->0;
            assert(result is Ok && appended(before, instructions@, tc)) by {
                let added = instructions@.skip(before.len() as int);
                assert(instructions@ =~= before + added);
                lemma_appended_pushes(before, added);
                match block.terminator {
                    TerminatorKind::Branch { condition, .. } => {
                        let cc = operand_code(condition, Register::Rax, offsets)->0;
                        assert(code_view(added) =~= tc);
                    },
                    _ => {
                        assert(code_view(added) =~= tc);
                    },
                }
            }
            lemma_appended_chain(
                old(instructions)@,
                before,
                instructions@,
                statements_code(*function, stmts, offsets, stmts.len() as int)->0,
                tc,
            );
        }
    }
    result
}

fn copy_operands(operands: &Vec<Operand>) -> (r: Vec<Operand>)
    ensures
        crate::mir::nodes::same_operands(r@, operands@),
{
    let mut out: Vec<Operand> = Vec::new();
    let mut i: usize = 0;
    while i < operands.len()
        invariant
            i <= operands@.len(),
            out@.len() == i,
            forall|j: int| 0 <= j < i ==> #[trigger] crate::mir::nodes::same_operand(out@[j], operands@[j]),
        decreases operands@.len() - i,
    {
        out.push(copy_operand(&operands[i]));
        i += 1;
    }
    out
}

fn copy_strings(v: &Vec<String>) -> (r: Vec<String>)
    ensures
        r@ == v@,
{
    let mut out: Vec<String> = Vec::new();
    let mut i: usize = 0;
    while i < v.len()
        invariant
            i <= v@.len(),
            out@ == v@.take(i as int),
        decreases v@.len() - i,
    {
        out.push(v[i].clone());
        proof {
            assert(out@ =~= v@.take(i + 1));
        }
        i += 1;
    }
    proof {
        assert(v@.take(i as int) =~= v@);
    }
    out
}

fn copy_rvalue(value: &Rvalue) -> (r: Rvalue)
    ensures
        crate::mir::nodes::same_rvalue(r, *value),
{
    match value {
        Rvalue::Use(o) => Rvalue::Use(copy_operand(o)),
        Rvalue::UnaryOp { op, operand } => Rvalue::UnaryOp { op: op.clone(), operand: copy_operand(operand) },
        Rvalue::BinaryOp { op, left, right } => Rvalue::BinaryOp { op: op.clone(), left: copy_operand(left), right: copy_operand(right) },
        Rvalue::AggregateStruct { path, fields } => {
            let mut copied: Vec<(String, Operand)> = Vec::new();
            let mut i: usize = 0;
            while i < fields.len()
                invariant
                    i <= fields@.len(),
                    copied@.len() == i,
                    forall|j: int| 0 <= j < i ==> #[trigger] crate::mir::nodes::same_field(copied@[j], fields@[j]),
                decreases fields@.len() - i,
            {
                let ghost c0 = copied@;
                copied.push((fields[i].0.clone(), copy_operand(&fields[i].1)));
                proof {
                    assert forall|j: int| 0 <= j < i + 1 implies #[trigger] crate::mir::nodes::same_field(copied@[j], fields@[j]) by {
                        if j < i {
                            assert(copied@[j] == c0[j]);
                        }
                    }
                }
                i += 1;
            }
            Rvalue::AggregateStruct { path: copy_strings(path), fields: copied }
        },
        Rvalue::AggregateArray { elements } => Rvalue::AggregateArray { elements: copy_operands(elements) },
        Rvalue::RepeatArray { value, length } => Rvalue::RepeatArray { value: copy_operand(value), length: *length },
        Rvalue::ResultOk(o) => Rvalue::ResultOk(copy_operand(o)),
        Rvalue::ResultErr(o) => Rvalue::ResultErr(copy_operand(o)),
    }
}

fn copy_arms(arms: &Vec<crate::mir::nodes::MatchTarget>) -> (r: Vec<crate::mir::nodes::MatchTarget>)
    ensures
        r@ == arms@,
{
    let mut out: Vec<crate::mir::nodes::MatchTarget> = Vec::new();
    let mut i: usize = 0;
    while i < arms.len()
        invariant
            i <= arms@.len(),
            out@ == arms@.take(i as int),
        decreases arms@.len() - i,
    {
        out.push(crate::mir::nodes::MatchTarget { pattern: arms[i].pattern.clone(), target: arms[i].target });
        proof {
            assert(out@ =~= arms@.take(i + 1));
        }
        i += 1;
    }
    proof {
        assert(arms@.take(i as int) =~= arms@);
    }
    out
}

fn copy_terminator(terminator: &TerminatorKind) -> (r: TerminatorKind)
    ensures
        crate::mir::nodes::same_terminator(r, *terminator),
{
    match terminator {
        TerminatorKind::Goto { target } => TerminatorKind::Goto { target: *target },
        TerminatorKind::Branch { condition, then_bb, else_bb } => TerminatorKind::Branch {
            condition: copy_operand(condition),
            then_bb: *then_bb,
            else_bb: *else_bb,
        },
        TerminatorKind::Match { discriminant, arms, otherwise } => TerminatorKind::Match {
            discriminant: copy_operand(discriminant),
            arms: copy_arms(arms),
            otherwise: *otherwise,
        },
        TerminatorKind::Call { callee, args, destination, target } => TerminatorKind::Call {
            callee: copy_operand(callee),
            args: copy_operands(args),
            destination: match destination {
                Some(p) => Some(copy_place(p)),
                None => None,
            },
            target: *target,
        },
        TerminatorKind::IterNext { iterator, binding, loop_body, exit } => TerminatorKind::IterNext {
            iterator: copy_place(iterator),
            binding: *binding,
            loop_body: *loop_body,
            exit: *exit,
        },
        TerminatorKind::Try { operand, ok_local, err_local, ok_target, err_target } => TerminatorKind::Try {
            operand: copy_operand(operand),
            ok_local: *ok_local,
            err_local: *err_local,
            ok_target: *ok_target,
            err_target: *err_target,
        },
        TerminatorKind::Return => TerminatorKind::Return,
        TerminatorKind::Unreachable => TerminatorKind::Unreachable,
    }
}

fn copy_block(block: &BasicBlockData) -> (r: BasicBlockData)
    ensures
        crate::mir::nodes::same_block(r, *block),
{
    let mut statements: Vec<crate::mir::nodes::Statement> = Vec::new();
    let mut i: usize = 0;
    while i < block.statements.len()
        invariant
            i <= block.statements@.len(),
            statements@.len() == i,
            forall|j: int| 0 <= j < i ==> #[trigger] crate::mir::nodes::same_statement(statements@[j], block.statements@[j]),
        decreases block.statements@.len() - i,
    {
        let kind = match &block.statements[i].kind {
            StatementKind::StorageLive(l) => StatementKind::StorageLive(*l),
            StatementKind::StorageDead(l) => StatementKind::StorageDead(*l),
            StatementKind::Assign(p, v) => StatementKind::Assign(copy_place(p), copy_rvalue(v)),
            StatementKind::Drop(l) => StatementKind::Drop(*l),
            StatementKind::Nop => StatementKind::Nop,
        };
        statements.push(crate::mir::nodes::Statement { kind, span: block.statements[i].span });
        i += 1;
    }
    BasicBlockData { id: block.id, statements, terminator: copy_terminator(&block.terminator) }
}

fn copy_function(function: &MirFunction) -> (r: MirFunction)
    ensures
        crate::mir::nodes::same_function(r, *function),
{
    let mut locals: Vec<crate::mir::nodes::LocalDecl> = Vec::new();
    let mut i: usize = 0;
    while i < function.locals.len()
        invariant
            i <= function.locals@.len(),
            locals@.len() == i,
            forall|j: int| 0 <= j < i ==> #[trigger] crate::mir::nodes::same_local(locals@[j], function.locals@[j]),
        decreases function.locals@.len() - i,
    {
        let l = &function.locals[i];
        locals.push(crate::mir::nodes::LocalDecl {
            id: l.id,
            name: l.name.clone(),
            ty: l.ty.duplicate(),
            mutable: l.mutable,
            temp: l.temp,
            span: l.span,
        });
        i += 1;
    }
    let mut blocks: Vec<BasicBlockData> = Vec::new();
    let mut b: usize = 0;
    while b < function.blocks.len()
        invariant
            b <= function.blocks@.len(),
            blocks@.len() == b,
            forall|j: int| 0 <= j < b ==> #[trigger] crate::mir::nodes::same_block(blocks@[j], function.blocks@[j]),
        decreases function.blocks@.len() - b,
    {
        blocks.push(copy_block(&function.blocks[b]));
        b += 1;
    }
    MirFunction {
        receiver: match &function.receiver {
            Some(r) => Some(r.clone()),
            None => None,
        },
        name: function.name.clone(),
        signature: function.signature.duplicate(),
        is_declaration: function.is_declaration,
        locals,
        blocks,
        entry: function.entry,
        return_local: function.return_local,
        span: function.span,
    }
}

/// A copy of the program, for lowering to optimize.
fn copy_program(program: &crate::mir::nodes::MirProgram) -> (r: crate::mir::nodes::MirProgram)
    ensures
        crate::mir::nodes::same_program(r, *program),
{
    let mut functions: Vec<MirFunction> = Vec::new();
    let mut i: usize = 0;
    while i < program.functions.len()
        invariant
            i <= program.functions@.len(),
            functions@.len() == i,
            forall|j: int| 0 <= j < i ==> #[trigger] crate::mir::nodes::same_function(functions@[j], program.functions@[j]),
        decreases program.functions@.len() - i,
    {
        functions.push(copy_function(&program.functions[i]));
        i += 1;
    }
    crate::mir::nodes::MirProgram { functions, span: program.span }
}


/// Lowers a function: a runtime routine for a declaration; otherwise the label, the frame,
/// the parameters spilled, a jump to the entry, and every block under its label.
pub fn lower_function(
    function: &MirFunction,
    program: &crate::mir::nodes::MirProgram,
    names: &Vec<String>,
    layouts: &TypeLayouts,
    target: Target,
    state: &mut LoweringState,
    instructions: &mut Vec<Instruction>,
) -> (r: Result<(), CodegenError>)
    requires
        names@.map_values(|s: String| s@) == crate::mir::determinism::names_of(*program),
    ensures
        function.is_declaration && !super::routines::runtime_declaration(*function) ==> r is Err,
        !function.is_declaration ==> extends(old(instructions)@, final(instructions)@),
        !function.is_declaration ==> (function_code(*function, *program, *layouts, target) matches Some(c) ==> r is Ok && appended(
            old(instructions)@,
            final(instructions)@,
            c,
        )),
        !function.is_declaration && function_code(*function, *program, *layouts, target) is Some ==> *final(state) == *old(
            state,
        ),
        function.is_declaration && r is Ok ==> super::routines::runtime_declaration(*function) && super::routines::routine_emitted(
            *function,
            target,
            *old(state),
            *final(state),
            old(instructions)@,
            final(instructions)@,
        ) && final(state).items().len() <= old(state).items().len() + 2 && final(state).next_label() <= old(
            state,
        ).next_label() + 9,
        function.is_declaration && super::routines::runtime_declaration(*function) && state_has_room(*old(state)) ==> r is Ok,
{
    if function.is_declaration {
        if !super::routines::is_supported_runtime_declaration(function) {
            let name = crate::mir::nodes::callable_name(function);
            return Err(message("native codegen does not yet implement declared runtime function `", name.as_str(), "`"));
        }
        check_room(state)?;
        return super::routines::emit_runtime_function(function, target, state, instructions);
    }
    proof {
        lemma_extends_refl(instructions@);
    }
    let ghost supported = function_code(*function, *program, *layouts, target) is Some;
    let ghost offsets = frame_offsets(*function, *layouts, target);
    let ghost total = frame_total(*function, *layouts, target);
    let stack = StackLayout::new(function, layouts, target)?;
    proof {
        if supported {
            assert(stack.offsets@ =~= offsets);
            assert(stack.return_ptr_offset is None);
            assert(stack.total_size == total);
        }
    }
    let ghost start = instructions@;
    instructions.push(Instruction::Label(super::routines::function_label(function)));
    if stack.total_size > 0 {
        instructions.push(Instruction::SubRsp(#[verifier::truncate] (stack.total_size as u32)));
    }
    proof {
        assert(extends(start, instructions@)) by {
            assert(instructions@.take(start.len() as int) =~= start);
        }
    }
    let ghost a = instructions@;
    let ghost head = seq![Ins::Label(fn_label(*function))] + (if total > 0 { seq![Ins::SubRsp(total as u32)] } else { Seq::empty() });
    proof {
        if supported {
            let added = a.skip(start.len() as int);
            assert(a =~= start + added);
            lemma_appended_pushes(start, added);
            assert(code_view(added) =~= head);
        }
    }
    let spilled = spill_params(function, &stack, layouts, target, instructions);
    proof {
        lemma_extends_trans(start, a, instructions@);
    }
    spilled?;
    let ghost b = instructions@;
    let ghost spill = params_code(super::runtime::argument_registers_of(target), offsets, function.signature.params@.len() as int);
    instructions.push(Instruction::Jump(super::routines::block_label(function, function.entry)));
    proof {
        lemma_extends_push(b, instructions@.last());
        lemma_extends_trans(start, b, instructions@);
        if supported {
            lemma_appended_chain(start, a, b, head, spill);
            let x = instructions@.last();
            assert(instructions@ =~= b + seq![x]);
            lemma_appended_pushes(b, seq![x]);
            assert(code_view(seq![x]) =~= seq![Ins::Jump(block_label_text(*function, function.entry))]);
            lemma_appended_chain(start, b, instructions@, head + spill, code_view(seq![x]));
            assert(instructions@ + Seq::<Instruction>::empty() =~= instructions@);
            lemma_appended_pushes(instructions@, Seq::empty());
            assert(code_view(Seq::<Instruction>::empty()) =~= Seq::<Ins>::empty());
            lemma_appended_chain(start, instructions@, instructions@, head + spill + code_view(seq![x]), Seq::empty());
            assert(head + spill + code_view(seq![x]) + Seq::<Ins>::empty() =~= head + spill + code_view(seq![x]));
        }
    }
    let ghost prefix = head + spill + seq![Ins::Jump(block_label_text(*function, function.entry))];
    let mut i: usize = 0;
    while i < function.blocks.len()
        invariant
            i <= function.blocks@.len(),
            extends(old(instructions)@, instructions@),
            names@.map_values(|s: String| s@) == crate::mir::determinism::names_of(*program),
            start == old(instructions)@,
            supported == (function_code(*function, *program, *layouts, target) is Some),
            offsets == frame_offsets(*function, *layouts, target),
            total == frame_total(*function, *layouts, target),
            supported ==> stack.offsets@ == offsets && stack.total_size == total,
            supported ==> *state == *old(state),
            !function.is_declaration,
            supported ==> blocks_code(*function, *program, target, offsets, total, i as int) is Some && appended(
                start,
                instructions@,
                prefix + blocks_code(*function, *program, target, offsets, total, i as int)->0,
            ),
        decreases function.blocks@.len() - i,
    {
        proof {
            if supported {
                lemma_blocks_code_prefix(*function, *program, target, offsets, total, i + 1, function.blocks@.len() as int);
            }
        }
        let ghost before = instructions@;
        instructions.push(Instruction::Label(super::routines::block_label(function, function.blocks[i].id)));
        proof {
            lemma_extends_push(before, instructions@.last());
        }
        let ghost mid = instructions@;
        let lowered = lower_block(function, &function.blocks[i], &stack, program, names, layouts, target, state, instructions);
        proof {
            lemma_extends_trans(before, mid, instructions@);
            lemma_extends_trans(old(instructions)@, before, instructions@);
            if supported {
                let x = mid.last();
                assert(mid =~= before + seq![x]);
                lemma_appended_pushes(before, seq![x]);
                let lbl = seq![Ins::Label(block_label_text(*function, function.blocks@[i as int].id))];
                assert(code_view(seq![x]) =~= lbl);
                let bc = block_code(*function, *program, target, function.blocks@[i as int], offsets, total)->0;
                let pc = prefix + blocks_code(*function, *program, target, offsets, total, i as int)->0;
                lemma_appended_chain(start, before, mid, pc, lbl);
                lemma_appended_chain(start, mid, instructions@, pc + lbl, bc);
                assert(pc + lbl + bc =~= prefix + blocks_code(*function, *program, target, offsets, total, i + 1)->0);
            }
        }
        lowered?;
        i += 1;
    }
    proof {
        if supported {
            assert(prefix + blocks_code(*function, *program, target, offsets, total, function.blocks@.len() as int)->0
                =~= function_code(*function, *program, *layouts, target)->0);
        }
    }
    Ok(())
}

/// Lowers a program to instructions for the target: a copy of it is optimized, every
/// declaration must be a runtime routine native code provides, and a top-level `main`
/// must exist; the entry wrapper comes first, then every function.
#[verifier::rlimit(80)]
pub fn lower_program(input: &crate::mir::nodes::MirProgram, target: Target) -> (r: Result<super::image::LoweredProgram, CodegenError>)
    ensures
        r matches Ok(p) ==> p.entry_label@ == (match target.os {
            super::targets::OperatingSystem::Linux => "_start"@,
            super::targets::OperatingSystem::Windows => "mainCRTStartup"@,
        }),
        r matches Ok(p) ==> lowered_from(*input, target, p),
        (exists|i: int| 0 <= i < input.functions@.len() && !crate::mir::optimize::well_formed(#[trigger] input.functions@[i]))
            ==> r is Err,
        native_code_owed(*input, target) ==> r is Ok,
{
    let ghost owed = native_code_owed(*input, target);
    match target.arch {
        super::targets::Architecture::X86_64 => {},
    }
    let ghost source = *input;
    let mut program = copy_program(input);
    let mut i: usize = 0;
    while i < program.functions.len()
        invariant
            source == *input,
            owed == native_code_owed(*input, target),
            i <= program.functions@.len(),
            crate::mir::nodes::same_program(program, source),
            owed == native_code_owed(source, target),
            forall|k: int| 0 <= k < i ==> #[trigger] crate::mir::const_eval::foldable(program.functions@[k]),
            forall|k: int| 0 <= k < i ==> #[trigger] crate::mir::optimize::well_formed(program.functions@[k]),
        decreases program.functions@.len() - i,
    {
        if !crate::mir::optimize::is_well_formed(&program.functions[i]) {
            proof {
                if owed {
                    assert(crate::mir::optimize::well_formed(source.functions@[i as int]));
                    assert(crate::mir::nodes::same_function(program.functions@[i as int], source.functions@[i as int]));
                    crate::mir::optimize::lemma_same_function_well_formed(program.functions@[i as int], source.functions@[i as int]);
                }
            }
            return Err(message("MIR function `", program.functions[i].name.as_str(), "` refers to blocks or locals it lacks"));
        }
        proof {
            crate::mir::optimize::lemma_well_formed_foldable(program.functions@[i as int]);
        }
        i += 1;
    }
    proof {
        assert forall|k: int| 0 <= k < source.functions@.len() implies crate::mir::optimize::well_formed(
            #[trigger] source.functions@[k],
        ) by {
            assert(crate::mir::nodes::same_function(program.functions@[k], source.functions@[k]));
            crate::mir::optimize::lemma_same_function_well_formed(program.functions@[k], source.functions@[k]);
            assert(crate::mir::optimize::well_formed(program.functions@[k]));
        }
    }
    let ghost copy = program;
    crate::mir::optimize::optimize_program(&mut program);
    proof {
        assert(optimized_program(copy, program));
        assert(optimization_of(source, copy, program));
        if owed {
            assert(forall|i: int| 0 <= i < program.functions@.len() && (#[trigger] program.functions@[i]).is_declaration
                ==> super::routines::runtime_declaration(program.functions@[i]));
            assert(super::layout::no_struct_literals(program));
            assert(exists|m: int| #[trigger] first_main(program, m));
        }
    }
    let mut d: usize = 0;
    while d < program.functions.len()
        invariant
            source == *input,
            owed == native_code_owed(*input, target),
            owed ==> forall|i: int| 0 <= i < program.functions@.len() && (#[trigger] program.functions@[i]).is_declaration
                ==> super::routines::runtime_declaration(program.functions@[i]),
        decreases program.functions@.len() - d,
    {
        let f = &program.functions[d];
        if f.is_declaration && !super::routines::is_supported_runtime_declaration(f) {
            let name = crate::mir::nodes::callable_name(f);
            return Err(message("native codegen does not yet implement declared runtime function `", name.as_str(), "`"));
        }
        d += 1;
    }
    let mut main_index: Option<usize> = None;
    let mut m: usize = 0;
    while m < program.functions.len()
        invariant
            source == *input,
            owed == native_code_owed(*input, target),
            m <= program.functions@.len(),
            main_index matches Some(k) ==> first_main(program, k as int),
            main_index is None ==> forall|j: int| 0 <= j < m ==> !(program.functions@[j].receiver is None
                && program.functions@[j].name@ == "main"@),
            owed ==> exists|k: int| #[trigger] first_main(program, k),
        decreases program.functions@.len() - m,
    {
        let f = &program.functions[m];
        if main_index.is_none() && f.receiver.is_none() && str_eq(f.name.as_str(), "main") {
            main_index = Some(m);
        }
        m += 1;
    }
    let main_index = match main_index {
        Some(k) => k,
        None => {
            proof {
                if owed {
                    let k = choose|k: int| #[trigger] first_main(program, k);
                    assert(!(program.functions@[k].receiver is None && program.functions@[k].name@ == "main"@));
                }
            }
            return Err(CodegenError::new("native codegen requires a top-level `main` function"));
        },
    };
    let mut state = LoweringState::new();
    let mut instructions: Vec<Instruction> = Vec::new();
    let layouts = super::layout::build_type_layouts(&program)?;
    let names = crate::mir::determinism::callable_names(&program);
    let ghost empty = instructions@;
    super::routines::emit_entry_wrapper(&program.functions[main_index], target, &mut state, &mut instructions);
    let ghost n = program.functions@.len() as int;
    let ghost all = forall|i: int| 0 <= i < n ==> #[trigger] function_has_code(program.functions@[i], program, layouts, target);
    let ghost mut cuts: Seq<int> = seq![instructions@.len() as int];
    let ghost mut states: Seq<LoweringState> = seq![state];
    proof {
        assert(instructions@.take(instructions@.len() as int) =~= instructions@);
        assert(instructions@.skip(0) =~= instructions@);
        if owed {
            assert(optimization_of(source, copy, program));
            assert(all);
        }
    }
    let mut f: usize = 0;
    while f < program.functions.len()
        invariant
            source == *input,
            owed == native_code_owed(*input, target),
            n == program.functions@.len(),
            f <= n,
            names@.map_values(|s: String| s@) == crate::mir::determinism::names_of(program),
            all == forall|i: int| 0 <= i < n ==> #[trigger] function_has_code(program.functions@[i], program, layouts, target),
            owed ==> all,
            owed ==> n * 9 + 9 < usize::MAX,
            all ==> state.items().len() <= 2 * f && state.next_label() <= 9 * f,
            cuts.len() == f + 1,
            states.len() == f + 1,
            forall|i: int| 0 <= i <= f ==> 0 <= #[trigger] cuts[i] <= instructions@.len(),
            first_main(program, main_index as int),
            optimization_of(source, copy, program),
            super::layout::layouts_consistent(layouts.structs@),
            states[f as int] == state,
            0 <= cuts[0] <= instructions@.len(),
            cuts[f as int] == instructions@.len(),
            code_view(instructions@.take(cuts[0])) == super::routines::entry_code(program.functions@[main_index as int], target),
            forall|i: int| 0 <= i < f ==> #[trigger] cuts[i] <= cuts[i + 1],
            forall|i: int| 0 <= i < f ==> #[trigger] function_lowered(
                program.functions@[i],
                program,
                layouts,
                target,
                states[i],
                states[i + 1],
                instructions@.take(cuts[i]),
                instructions@.take(cuts[i + 1]),
            ),
        decreases program.functions@.len() - f,
    {
        let ghost before = instructions@;
        let ghost s_before = state;
        proof {
            if all {
                assert(function_has_code(program.functions@[f as int], program, layouts, target));
            }
        }
        lower_function(&program.functions[f], &program, &names, &layouts, target, &mut state, &mut instructions)?;
        proof {
            let fi = program.functions@[f as int];
            assert(function_lowered(fi, program, layouts, target, s_before, state, before, instructions@)) by {
                if fi.is_declaration {
                } else {
                }
            }
            assert(extends(before, instructions@)) by {
                if fi.is_declaration {
                    assert(super::routines::routine_emitted(fi, target, s_before, state, before, instructions@));
                    lemma_routine_extends(fi, target, s_before, state, before, instructions@);
                }
            }
            assert(instructions@.take(before.len() as int) =~= before);
            let old_cuts = cuts;
            let old_states = states;
            cuts = cuts.push(instructions@.len() as int);
            states = states.push(state);
            assert(instructions@.take(instructions@.len() as int) =~= instructions@);
            assert(instructions@.take(cuts[0]) =~= before.take(cuts[0])) by {
                assert forall|j: int| 0 <= j < cuts[0] implies instructions@[j] == before[j] by {
                    assert(instructions@.take(before.len() as int)[j] == before[j]);
                }
            }
            assert forall|i: int| 0 <= i <= f + 1 implies 0 <= #[trigger] cuts[i] <= instructions@.len() by {
                if i <= f {
                    assert(cuts[i] == old_cuts[i]);
                }
            }
            assert forall|i: int| 0 <= i < f + 1 implies #[trigger] cuts[i] <= cuts[i + 1] by {
                if i < f {
                    assert(cuts[i] == old_cuts[i] && cuts[i + 1] == old_cuts[i + 1]);
                    assert(old_cuts[i] <= old_cuts[i + 1]);
                } else {
                    assert(cuts[i] == before.len() && cuts[i + 1] == instructions@.len());
                }
            }
            assert forall|i: int| 0 <= i < f + 1 implies #[trigger] function_lowered(
                program.functions@[i],
                program,
                layouts,
                target,
                states[i],
                states[i + 1],
                instructions@.take(cuts[i]),
                instructions@.take(cuts[i + 1]),
            ) by {
                if i < f {
                    assert(cuts[i] == old_cuts[i] && cuts[i + 1] == old_cuts[i + 1]);
                    assert(old_cuts[i] <= before.len() && old_cuts[i + 1] <= before.len());
                    assert(instructions@.take(cuts[i]) =~= before.take(cuts[i])) by {
                        assert forall|j: int| 0 <= j < cuts[i] implies instructions@[j] == before[j] by {
                            assert(instructions@.take(before.len() as int)[j] == before[j]);
                        }
                    }
                    assert(instructions@.take(cuts[i + 1]) =~= before.take(cuts[i + 1])) by {
                        assert forall|j: int| 0 <= j < cuts[i + 1] implies instructions@[j] == before[j] by {
                            assert(instructions@.take(before.len() as int)[j] == before[j]);
                        }
                    }
                    assert(states[i] == old_states[i] && states[i + 1] == old_states[i + 1]);
                    assert(function_lowered(
                        program.functions@[i],
                        program,
                        layouts,
                        target,
                        old_states[i],
                        old_states[i + 1],
                        before.take(old_cuts[i]),
                        before.take(old_cuts[i + 1]),
                    ));
                } else {
                    assert(cuts[i] == before.len() && cuts[i + 1] == instructions@.len());
                    assert(states[i] == s_before && states[i + 1] == state);
                    assert(instructions@.take(cuts[i]) =~= before);
                    assert(instructions@.take(cuts[i + 1]) =~= instructions@);
                    assert(function_lowered(program.functions@[i], program, layouts, target, s_before, state, before, instructions@));
                }
            }
        }
        f += 1;
    }
    let ghost instructions_view = instructions@;
    let uses_windows_runtime_imports = state.uses_windows_runtime_imports();
    let data_items = state.into_data_items();
    let lowered = super::image::LoweredProgram {
        entry_label: crate::text::owned(target.entry_symbol()),
        instructions,
        data_items,
        uses_windows_runtime_imports,
    };
    proof {
        assert(lowered.instructions@ == instructions_view);
        assert forall|i: int| 0 <= i < n implies cuts[i] <= cuts[i + 1] && #[trigger] function_lowered(
            program.functions@[i],
            program,
            layouts,
            target,
            states[i],
            states[i + 1],
            instructions_view.take(cuts[i]),
            instructions_view.take(cuts[i + 1]),
        ) by {
            assert(cuts[i] <= cuts[i + 1]);
        }
        assert(lowering_witness(source, target, lowered, copy, program, layouts, main_index as int, cuts, states));
    }
    Ok(lowered)
}

/// The program as Intel-syntax assembly for the target.
pub fn emit_assembly(program: &crate::mir::nodes::MirProgram, target: Target) -> (r: Result<String, CodegenError>)
    ensures
        native_code_owed(*program, target) ==> r is Ok,
        r matches Ok(t) ==> exists|p: super::image::LoweredProgram| lowered_from(*program, target, p)
            && #[trigger] super::assembly::assembly_text(p) == t@,
        (exists|i: int| 0 <= i < program.functions@.len() && !crate::mir::optimize::well_formed(#[trigger] program.functions@[i]))
            ==> r is Err,
{
    let lowered = lower_program(program, target)?;
    Ok(super::assembly::render_assembly(&lowered, target))
}

/// The program as an executable image for the target: ELF on Linux, PE on Windows.
pub fn emit_executable(program: &crate::mir::nodes::MirProgram, target: Target) -> (r: Result<Vec<u8>, CodegenError>)
    ensures
        native_code_owed(*program, target) && r is Err ==> exists|p: super::image::LoweredProgram| lowered_from(*program, target, p)
            && !(super::image::image_fits(p, target) && #[trigger] executable_image(p, target) is Ok),
        r matches Ok(b) ==> exists|p: super::image::LoweredProgram| lowered_from(*program, target, p)
            && super::image::image_fits(p, target) && #[trigger] executable_image(p, target) == Ok::<Seq<u8>, Seq<char>>(b@),
        (exists|i: int| 0 <= i < program.functions@.len() && !crate::mir::optimize::well_formed(#[trigger] program.functions@[i]))
            ==> r is Err,
{
    let lowered = lower_program(program, target)?;
    if !super::image::image_fits_check(&lowered, target) {
        proof {
            assert(!(super::image::image_fits(lowered, target) && executable_image(lowered, target) is Ok));
        }
        return Err(CodegenError::new("native codegen output exceeds the image size limits"));
    }
    let r = match target.os {
        super::targets::OperatingSystem::Linux => super::image::emit_elf(&lowered),
        super::targets::OperatingSystem::Windows => super::image::emit_pe(&lowered),
    };
    proof {
        if r is Ok {
            assert(executable_image(lowered, target) == Ok::<Seq<u8>, Seq<char>>(r->Ok_0@));
        } else {
            assert(!(executable_image(lowered, target) is Ok));
        }
    }
    r
}

/// The program as assembly for the target.
pub fn emit_native_assembly(program: &crate::mir::nodes::MirProgram, target: Target) -> (r: Result<String, CodegenError>)
    ensures
        native_code_owed(*program, target) ==> r is Ok,
        r matches Ok(t) ==> exists|p: super::image::LoweredProgram| lowered_from(*program, target, p)
            && #[trigger] super::assembly::assembly_text(p) == t@,
        (exists|i: int| 0 <= i < program.functions@.len() && !crate::mir::optimize::well_formed(#[trigger] program.functions@[i]))
            ==> r is Err,
{
    emit_assembly(program, target)
}

/// The program as an executable image for the target.
#[verifier::rlimit(50)]
pub fn emit_native_executable(program: &crate::mir::nodes::MirProgram, target: Target) -> (r: Result<Vec<u8>, CodegenError>)
    ensures
        native_code_owed(*program, target) && r is Err ==> exists|p: super::image::LoweredProgram| lowered_from(*program, target, p)
            && !(super::image::image_fits(p, target) && #[trigger] executable_image(p, target) is Ok),
        r matches Ok(b) ==> exists|p: super::image::LoweredProgram| lowered_from(*program, target, p)
            && super::image::image_fits(p, target) && #[trigger] executable_image(p, target) == Ok::<Seq<u8>, Seq<char>>(b@),
        (exists|i: int| 0 <= i < program.functions@.len() && !crate::mir::optimize::well_formed(#[trigger] program.functions@[i]))
            ==> r is Err,
{
    emit_executable(program, target)
}

/// What a binary MIR operator computes on two 64-bit integers: two's-complement `+`, `-`
/// and `*`, and 1 or 0 for whether a comparison holds.
pub open spec fn binary_meaning(op: Seq<char>, a: int, b: int) -> Option<int> {
    if op == "Add"@ {
        Some(super::x86::wrap64(a + b))
    } else if op == "Subtract"@ {
        Some(super::x86::wrap64(a - b))
    } else if op == "Multiply"@ {
        Some(super::x86::wrap64(a * b))
    } else if op == "Equal"@ {
        Some(if a == b { 1int } else { 0int })
    } else if op == "NotEqual"@ {
        Some(if a != b { 1int } else { 0int })
    } else if op == "Less"@ {
        Some(if a < b { 1int } else { 0int })
    } else if op == "LessEqual"@ {
        Some(if a <= b { 1int } else { 0int })
    } else if op == "Greater"@ {
        Some(if a > b { 1int } else { 0int })
    } else if op == "GreaterEqual"@ {
        Some(if a >= b { 1int } else { 0int })
    } else {
        None
    }
}

/// What a unary MIR operator computes on a 64-bit integer: negation, and 1 or 0 for
/// whether a boolean is false.
pub open spec fn unary_meaning(op: Seq<char>, v: int) -> Option<int> {
    if op == "Negate"@ {
        Some(super::x86::wrap64(-v))
    } else if op == "Not"@ {
        Some(if v == 0 { 1int } else { 0int })
    } else {
        None
    }
}

/// The value an operand denotes in a running frame: a whole local's slot, or a constant
/// (booleans as 1 and 0, `()` as 0).
pub open spec fn operand_value_in(o: Operand, offsets: Seq<i32>, m: super::x86::Machine) -> int {
    match o {
        Operand::Copy(p) | Operand::Move(p) => super::x86::slot(m, offsets[p.local.0 as int]),
        Operand::Constant(c) => match c.value {
            ConstantValue::Integer(t) => match i64_value(t@) {
                Some(v) => v as int,
                None => 0,
            },
            ConstantValue::Bool(b) => if b { 1int } else { 0int },
            _ => 0,
        },
    }
}

/// What a right-hand side computes in a running frame, for the operators whose meaning is
/// given above.
pub open spec fn rvalue_meaning(value: Rvalue, offsets: Seq<i32>, m: super::x86::Machine) -> Option<int> {
    match value {
        Rvalue::Use(o) => Some(operand_value_in(o, offsets, m)),
        Rvalue::UnaryOp { op, operand } => unary_meaning(op@, operand_value_in(operand, offsets, m)),
        Rvalue::BinaryOp { op, left, right } => binary_meaning(
            op@,
            operand_value_in(left, offsets, m),
            operand_value_in(right, offsets, m),
        ),
        _ => None,
    }
}

proof fn lemma_operand_code_loads(o: Operand, destination: Register, offsets: Seq<i32>, m: super::x86::Machine)
    requires
        operand_code(o, destination, offsets) is Some,
    ensures
        ({
            let after = super::x86::run(m, operand_code(o, destination, offsets)->0);
            &&& super::x86::reg(after, destination) == operand_value_in(o, offsets, m)
            &&& forall|r: Register| r != destination ==> #[trigger] super::x86::reg(after, r) == super::x86::reg(m, r)
            &&& after.stack == m.stack
        }),
{
    let code = operand_code(o, destination, offsets)->0;
    super::x86::lemma_run_single(m, code[0]);
    assert(code =~= seq![code[0]]);
}

proof fn lemma_low_byte(x: int, bit: int)
    requires
        0 <= bit < 256,
    ensures
        (x - x % 256 + bit) % 256 == bit,
{
    vstd::arithmetic::div_mod::lemma_fundamental_div_mod(x, 256);
    let q = x / 256;
    assert(x - x % 256 == 256 * q);
    vstd::arithmetic::div_mod::lemma_mod_multiples_vanish(q, bit, 256);
}

/// The code of a comparison leaves in `rax` whether the condition holds of `rax` and `rcx`.
proof fn lemma_compare_code_computes(c: Condition, m: super::x86::Machine)
    ensures
        super::x86::reg(super::x86::run(m, compare_code(c)), Register::Rax) == if super::x86::condition_holds(
            c,
            super::x86::reg(m, Register::Rax),
            super::x86::reg(m, Register::Rcx),
        ) {
            1int
        } else {
            0int
        },
{
    let code = compare_code(c);
    let m1 = super::x86::step(m, code[0]);
    let m2 = super::x86::step(m1, code[1]);
    super::x86::lemma_run_three(m, code[0], code[1], code[2]);
    assert(code =~= seq![code[0], code[1], code[2]]);
    let x = super::x86::reg(m1, Register::Rax);
    let bit = if super::x86::condition_holds(c, super::x86::reg(m, Register::Rax), super::x86::reg(m, Register::Rcx)) {
        1int
    } else {
        0int
    };
    lemma_low_byte(x, bit);
}

/// The native code of an operator computes it: run on 64-bit values in `rax` and `rcx`,
/// the code of `LessEqual` leaves 1 in `rax` exactly when the left value is at most the
/// right one, that of `Add` their wrapped sum, and so on for every operator given a meaning.
pub proof fn lemma_binary_code_computes(op: Seq<char>, m: super::x86::Machine)
    requires
        binary_op_code(op) is Some,
        binary_meaning(op, super::x86::reg(m, Register::Rax), super::x86::reg(m, Register::Rcx)) is Some,
    ensures
        super::x86::reg(super::x86::run(m, binary_op_code(op)->0), Register::Rax) == binary_meaning(
            op,
            super::x86::reg(m, Register::Rax),
            super::x86::reg(m, Register::Rcx),
        )->0,
{
    reveal_strlit("Add");
    reveal_strlit("Subtract");
    reveal_strlit("Multiply");
    reveal_strlit("Divide");
    reveal_strlit("And");
    reveal_strlit("Or");
    reveal_strlit("Equal");
    reveal_strlit("NotEqual");
    reveal_strlit("Less");
    reveal_strlit("LessEqual");
    reveal_strlit("Greater");
    reveal_strlit("GreaterEqual");
    assert("Add"@.len() == 3 && "Subtract"@.len() == 8 && "Multiply"@.len() == 8 && "Divide"@.len() == 6 && "And"@.len() == 3
        && "Or"@.len() == 2 && "Equal"@.len() == 5 && "NotEqual"@.len() == 8 && "Less"@.len() == 4 && "LessEqual"@.len() == 9
        && "Greater"@.len() == 7 && "GreaterEqual"@.len() == 12);
    assert("Add"@[1] != "And"@[1]);
    assert("Subtract"@[0] != "Multiply"@[0] && "Subtract"@[0] != "NotEqual"@[0] && "Multiply"@[0] != "NotEqual"@[0]);
    let code = binary_op_code(op)->0;
    if code.len() == 1 {
        super::x86::lemma_run_single(m, code[0]);
        assert(code =~= seq![code[0]]);
    } else if op == "Divide"@ {
    } else {
        if op == "Equal"@ {
            lemma_compare_code_computes(Condition::Equal, m);
        } else if op == "NotEqual"@ {
            lemma_compare_code_computes(Condition::NotEqual, m);
        } else if op == "Less"@ {
            lemma_compare_code_computes(Condition::Less, m);
        } else if op == "LessEqual"@ {
            lemma_compare_code_computes(Condition::LessEqual, m);
        } else if op == "Greater"@ {
            lemma_compare_code_computes(Condition::Greater, m);
        } else if op == "GreaterEqual"@ {
            lemma_compare_code_computes(Condition::GreaterEqual, m);
        }
    }
}

/// The native code of a scalar right-hand side computes it: run in a frame, the code that
/// lowering appends for a use, a unary or a binary operator of whole locals and constants
/// leaves in `rax` what the right-hand side means there (`_1 <= _2` gives 1 exactly when
/// the first local's value is at most the second's).
pub proof fn lemma_rvalue_code_computes(value: Rvalue, offsets: Seq<i32>, m: super::x86::Machine)
    requires
        rvalue_code(value, offsets) is Some,
        rvalue_meaning(value, offsets, m) is Some,
    ensures
        super::x86::reg(super::x86::run(m, rvalue_code(value, offsets)->0), Register::Rax) == rvalue_meaning(
            value,
            offsets,
            m,
        )->0,
{
    reveal_strlit("Negate");
    reveal_strlit("Not");
    match value {
        Rvalue::Use(o) => {
            lemma_operand_code_loads(o, Register::Rax, offsets, m);
        },
        Rvalue::UnaryOp { op, operand } => {
            let a = operand_code(operand, Register::Rax, offsets)->0;
            let b = unary_op_code(op@)->0;
            lemma_operand_code_loads(operand, Register::Rax, offsets, m);
            super::x86::lemma_run_concat(m, a, b);
            let m1 = super::x86::run(m, a);
            if op@ == "Negate"@ {
                super::x86::lemma_run_single(m1, b[0]);
                assert(b =~= seq![b[0]]);
            } else {
                let m2 = super::x86::step(m1, b[0]);
                super::x86::lemma_run_three(m1, b[0], b[1], b[2]);
                assert(b =~= seq![b[0], b[1], b[2]]);
                let v = super::x86::reg(m1, Register::Rax);
                lemma_low_byte(super::x86::reg(m2, Register::Rax), if v == 0 { 1int } else { 0int });
            }
        },
        Rvalue::BinaryOp { op, left, right } => {
            let a = operand_code(left, Register::Rax, offsets)->0;
            let b = operand_code(right, Register::Rcx, offsets)->0;
            let c = binary_op_code(op@)->0;
            lemma_operand_code_loads(left, Register::Rax, offsets, m);
            let m1 = super::x86::run(m, a);
            lemma_operand_code_loads(right, Register::Rcx, offsets, m1);
            let m2 = super::x86::run(m1, b);
            assert(operand_value_in(right, offsets, m1) == operand_value_in(right, offsets, m));
            super::x86::lemma_run_concat(m, a, b);
            super::x86::lemma_run_concat(m, a + b, c);
            lemma_binary_code_computes(op@, m2);
        },
        _ => {},
    }
}

/// Where a block's branch sends control: run in a frame, the code of a branch on a scalar
/// condition jumps to the then-block's label exactly when the condition is nonzero, and to
/// the else-block's otherwise.
pub proof fn lemma_branch_code_jumps(
    function: MirFunction,
    program: crate::mir::nodes::MirProgram,
    target: Target,
    condition: Operand,
    then_bb: BasicBlockId,
    else_bb: BasicBlockId,
    offsets: Seq<i32>,
    total_size: usize,
    m: super::x86::Machine,
)
    requires
        terminator_code(
            function,
            program,
            target,
            TerminatorKind::Branch { condition, then_bb, else_bb },
            offsets,
            total_size,
        ) is Some,
    ensures
        super::x86::jump_taken(
            m,
            terminator_code(function, program, target, TerminatorKind::Branch { condition, then_bb, else_bb }, offsets, total_size)->0,
        ) == Some(
            if operand_value_in(condition, offsets, m) != 0 {
                block_label_text(function, then_bb)
            } else {
                block_label_text(function, else_bb)
            },
        ),
{
    let load = operand_code(condition, Register::Rax, offsets)->0;
    let code = terminator_code(function, program, target, TerminatorKind::Branch { condition, then_bb, else_bb }, offsets, total_size)->0;
    lemma_operand_code_loads(condition, Register::Rax, offsets, m);
    assert(load.len() == 1);
    let m1 = super::x86::step(m, load[0]);
    super::x86::lemma_run_single(m, load[0]);
    assert(load =~= seq![load[0]]);
    let rest = seq![
        Ins::CmpRegImm(Register::Rax, 0),
        Ins::JumpIf(Condition::NotEqual, block_label_text(function, then_bb)),
        Ins::Jump(block_label_text(function, else_bb)),
    ];
    assert(code =~= seq![load[0]] + rest);
    assert(code.drop_first() =~= rest);
    let m2 = super::x86::step(m1, rest[0]);
    assert(rest.drop_first() =~= seq![rest[1], rest[2]]);
    assert(seq![rest[1], rest[2]].drop_first() =~= seq![rest[2]]);
    reveal_with_fuel(super::x86::jump_taken, 4);
}

/// Returning leaves the function's value in `rax`: the return local's slot for a scalar
/// result, zero for `()`.
pub proof fn lemma_return_code_result(function: MirFunction, offsets: Seq<i32>, total_size: usize, m: super::x86::Machine)
    requires
        return_code(function, offsets, total_size) is Some,
    ensures
        super::x86::reg(super::x86::run(m, return_code(function, offsets, total_size)->0), Register::Rax) == if *function.signature.return_type is Unit {
            0int
        } else {
            super::x86::slot(m, offsets[function.return_local.0 as int])
        },
{
    let code = return_code(function, offsets, total_size)->0;
    let first = code[0];
    let tail = epilogue_code(total_size);
    assert(code =~= seq![first] + tail);
    super::x86::lemma_run_concat(m, seq![first], tail);
    super::x86::lemma_run_single(m, first);
    let m1 = super::x86::step(m, first);
    if total_size > 0 {
        assert(tail =~= seq![Ins::AddRsp(total_size as u32), Ins::Ret]);
        assert(tail.drop_last() =~= seq![Ins::AddRsp(total_size as u32)]);
        super::x86::lemma_run_single(m1, Ins::AddRsp(total_size as u32));
    } else {
        assert(tail =~= seq![Ins::Ret]);
        super::x86::lemma_run_single(m1, Ins::Ret);
    }
}

/// Spilling parameters stores each argument register into its local's slot: after the code,
/// the slot of local `i + 1` holds what the `i`-th argument register held.
pub proof fn lemma_params_code_spills(registers: Seq<Register>, offsets: Seq<i32>, n: int, m: super::x86::Machine, i: int)
    requires
        0 <= i < n,
        n < offsets.len(),
        n <= registers.len(),
        forall|a: int, b: int| 0 < a < b <= n ==> offsets[a] != offsets[b],
        forall|k: int| 0 <= k < n ==> registers[k] != Register::Rax,
    ensures
        super::x86::slot(super::x86::run(m, params_code(registers, offsets, n)), offsets[i + 1]) == super::x86::reg(m, registers[i]),
        forall|r: Register| r != Register::Rax ==> #[trigger] super::x86::reg(super::x86::run(m, params_code(registers, offsets, n)), r)
            == super::x86::reg(m, r),
    decreases n,
{
    let prev = params_code(registers, offsets, n - 1);
    let pair = seq![Ins::MovRegReg(Register::Rax, registers[n - 1]), Ins::MovStackReg(offsets[n], Register::Rax)];
    super::x86::lemma_run_concat(m, prev, pair);
    let m0 = super::x86::run(m, prev);
    if n - 1 > 0 {
        if i < n - 1 {
            lemma_params_code_spills(registers, offsets, n - 1, m, i);
        } else {
            lemma_params_code_spills(registers, offsets, n - 1, m, 0);
        }
    } else {
        assert(prev =~= Seq::<Ins>::empty());
        assert(m0 == m);
    }
    super::x86::lemma_run_concat(m0, seq![pair[0]], seq![pair[1]]);
    assert(seq![pair[0]] + seq![pair[1]] =~= pair);
    super::x86::lemma_run_single(m0, pair[0]);
    let m1 = super::x86::step(m0, pair[0]);
    super::x86::lemma_run_single(m1, pair[1]);
    let m2 = super::x86::step(m1, pair[1]);
    assert forall|r: Register| r != Register::Rax implies #[trigger] super::x86::reg(m2, r) == super::x86::reg(m, r) by {
        assert(super::x86::reg(m2, r) == super::x86::reg(m1, r));
        assert(super::x86::reg(m1, r) == super::x86::reg(m0, r));
    }
}

/// Passing arguments puts each in its register: after the code that passes the first `n`
/// arguments, argument register `i` holds the value of argument `i`.
pub proof fn lemma_args_code_passes(args: Seq<Operand>, registers: Seq<Register>, offsets: Seq<i32>, n: int, m: super::x86::Machine, i: int)
    requires
        0 <= i < n <= args.len(),
        n <= registers.len(),
        args_code(args, registers, offsets, n) is Some,
        forall|a: int, b: int| 0 <= a < b < n ==> registers[a] != registers[b],
        forall|k: int| 0 <= k < n ==> registers[k] != Register::Rax,
    ensures
        super::x86::reg(super::x86::run(m, args_code(args, registers, offsets, n)->0), registers[i]) == operand_value_in(
            args[i],
            offsets,
            m,
        ),
        super::x86::run(m, args_code(args, registers, offsets, n)->0).stack == m.stack,
        forall|r: Register| (forall|k: int| 0 <= k < n ==> registers[k] != r) && r != Register::Rax ==> #[trigger] super::x86::reg(
            super::x86::run(m, args_code(args, registers, offsets, n)->0),
            r,
        ) == super::x86::reg(m, r),
    decreases n,
{
    let prev = args_code(args, registers, offsets, n - 1)->0;
    let load = operand_code(args[n - 1], Register::Rax, offsets)->0;
    let mv = seq![Ins::MovRegReg(registers[n - 1], Register::Rax)];
    assert(args_code(args, registers, offsets, n)->0 == prev + load + mv);
    super::x86::lemma_run_concat(m, prev + load, mv);
    super::x86::lemma_run_concat(m, prev, load);
    let m0 = super::x86::run(m, prev);
    if n - 1 > 0 {
        if i < n - 1 {
            lemma_args_code_passes(args, registers, offsets, n - 1, m, i);
        } else {
            lemma_args_code_passes(args, registers, offsets, n - 1, m, 0);
        }
    } else {
        assert(prev =~= Seq::<Ins>::empty());
        assert(m0 == m);
    }
    lemma_operand_code_loads(args[n - 1], Register::Rax, offsets, m0);
    let m1 = super::x86::run(m0, load);
    assert(operand_value_in(args[n - 1], offsets, m0) == operand_value_in(args[n - 1], offsets, m));
    super::x86::lemma_run_single(m1, mv[0]);
    let m2 = super::x86::step(m1, mv[0]);
    if i < n - 1 {
        assert(super::x86::reg(m2, registers[i]) == super::x86::reg(m1, registers[i]));
        assert(super::x86::reg(m1, registers[i]) == super::x86::reg(m0, registers[i]));
    }
    assert forall|r: Register| (forall|k: int| 0 <= k < n ==> registers[k] != r) && r != Register::Rax implies #[trigger] super::x86::reg(
        m2,
        r,
    ) == super::x86::reg(m, r) by {
        assert(registers[n - 1] != r);
        assert(super::x86::reg(m2, r) == super::x86::reg(m1, r));
        assert(super::x86::reg(m1, r) == super::x86::reg(m0, r));
        if n - 1 > 0 {
            assert(forall|k: int| 0 <= k < n - 1 ==> registers[k] != r);
        }
    }
}

} // verus!
