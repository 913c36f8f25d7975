//! The routines a program gets for the runtime functions it declares (printing, reading
//! an integer, string helpers), and the entry point that calls `main`.

use vstd::prelude::*;
use crate::mir::nodes::{callable_name, callable_text};
use crate::mir::{BasicBlockId, MirFunction};
use crate::text::{chars_of, decimal, decimal_chars, owned, push_str_chars, str_eq, string_from_chars};
use crate::types::Type;
use super::{CodegenError, OperatingSystem, Target};
use super::image::{WIN_IMPORT_GET_STD_HANDLE, WIN_IMPORT_READ_FILE, WIN_IMPORT_WRITE_FILE};
use vstd::string::StringSliceAdditionalSpecFns;
use vstd::utf8::encode_utf8;
use super::runtime::{holds_data, 
    accumulator_offset_of, argument_registers_of, buffer_end_of, emit_read_stdin_byte, emit_write_stdout,
    first_argument_register, frame_size_of, input_buffer_offset_of, negative_offset_of, read_stdin_ok,
    runtime_accumulator_offset, runtime_buffer_end_offset, runtime_frame_size, runtime_input_buffer_offset,
    runtime_negative_offset, runtime_started_offset, sanitize_symbol, sanitized, second_argument_register,
    started_offset_of, windows_arg5_offset_of, write_stdout_ok, written_offset_of, LoweringState,
};
use super::x86::{code_view, ins_view, Condition, Ins, Instruction, Register};

verus! {

/// The label of a function's code: `__ml_fn_` and its callable name with every character
/// other than a letter, digit or `_` replaced by `_`.
pub open spec fn fn_label(f: MirFunction) -> Seq<char> {
    "__ml_fn_"@ + sanitized(callable_text(f))
}

pub fn function_label(function: &MirFunction) -> (s: String)
    ensures
        s@ == fn_label(*function),
{
    let name = callable_name(function);
    let symbol = sanitize_symbol(name.as_str());
    let mut text = chars_of("__ml_fn_");
    push_str_chars(&mut text, symbol.as_str());
    string_from_chars(&text)
}

/// The label of a block: the function's label, `.Lbb` and the block's number.
pub fn block_label(function: &MirFunction, block: BasicBlockId) -> (s: String)
    ensures
        s@ == fn_label(*function) + ".Lbb"@ + decimal(block.0 as nat),
{
    let label = function_label(function);
    let mut text = chars_of(label.as_str());
    push_str_chars(&mut text, ".Lbb");
    let mut digits = decimal_chars(block.0 as u64);
    text.append(&mut digits);
    string_from_chars(&text)
}

/// The `n`-th label handed out by the lowering state, under `prefix`.
pub open spec fn rt_label(prefix: Seq<char>, n: nat) -> Seq<char> {
    "__ml_rt_"@ + prefix + "_"@ + decimal(n)
}

/// Writing `length` bytes from `pointer` to standard output.
pub open spec fn write_stdout_code(target: Target, pointer: Register, length: Register) -> Seq<Ins> {
    match target.os {
        OperatingSystem::Linux => seq![
            Ins::MovRegReg(Register::Rsi, pointer),
            Ins::MovRegReg(Register::Rdx, length),
            Ins::MovRegImm64(Register::Rdi, 1),
            Ins::MovRegImm64(Register::Rax, 1),
            Ins::Syscall,
        ],
        OperatingSystem::Windows => seq![
            Ins::MovRegImm64(Register::Rcx, -11i64),
            Ins::CallImport(WIN_IMPORT_GET_STD_HANDLE@),
            Ins::MovRegReg(Register::Rcx, Register::Rax),
            Ins::MovRegReg(Register::Rdx, pointer),
            Ins::MovRegReg(Register::R8, length),
            Ins::LeaRegRspOffset(Register::R9, written_offset_of(target)),
            Ins::MovRegImm64(Register::Rax, 0),
            Ins::MovStackReg(windows_arg5_offset_of(target), Register::Rax),
            Ins::CallImport(WIN_IMPORT_WRITE_FILE@),
        ],
    }
}

/// Reading one byte from standard input into the input buffer.
pub open spec fn read_stdin_code(target: Target) -> Seq<Ins> {
    match target.os {
        OperatingSystem::Linux => seq![
            Ins::LeaRegRspOffset(Register::R10, input_buffer_offset_of(target)),
            Ins::LeaRegRspOffset(Register::Rsi, input_buffer_offset_of(target)),
            Ins::MovRegImm64(Register::Rdx, 1),
            Ins::MovRegImm64(Register::Rdi, 0),
            Ins::MovRegImm64(Register::Rax, 0),
            Ins::Syscall,
        ],
        OperatingSystem::Windows => seq![
            Ins::MovRegImm64(Register::Rcx, -10i64),
            Ins::CallImport(WIN_IMPORT_GET_STD_HANDLE@),
            Ins::MovRegReg(Register::Rcx, Register::Rax),
            Ins::LeaRegRspOffset(Register::R10, input_buffer_offset_of(target)),
            Ins::LeaRegRspOffset(Register::Rdx, input_buffer_offset_of(target)),
            Ins::MovRegImm64(Register::R8, 1),
            Ins::LeaRegRspOffset(Register::R9, written_offset_of(target)),
            Ins::MovRegImm64(Register::Rax, 0),
            Ins::MovStackReg(windows_arg5_offset_of(target), Register::Rax),
            Ins::CallImport(WIN_IMPORT_READ_FILE@),
            Ins::MovRegStack(Register::Rax, written_offset_of(target)),
        ],
    }
}

/// The instructions `new` holds beyond `old` are `code`.
pub open spec fn appended(old: Seq<Instruction>, new: Seq<Instruction>, code: Seq<Ins>) -> bool {
    &&& new.len() >= old.len()
    &&& new.take(old.len() as int) == old
    &&& code_view(new.skip(old.len() as int)) == code
}

pub proof fn lemma_appended_chain(a: Seq<Instruction>, b: Seq<Instruction>, c: Seq<Instruction>, x: Seq<Ins>, y: Seq<Ins>)
    requires
        appended(a, b, x),
        appended(b, c, y),
    ensures
        appended(a, c, x + y),
{
    assert(c.take(a.len() as int) =~= a) by {
        assert forall|i: int| 0 <= i < a.len() implies c.take(a.len() as int)[i] == a[i] by {
            assert(c.take(b.len() as int)[i] == b[i]);
            assert(b.take(a.len() as int)[i] == a[i]);
        }
    }
    assert(code_view(c.skip(a.len() as int)) =~= x + y) by {
        let s = c.skip(a.len() as int);
        assert forall|i: int| 0 <= i < s.len() implies code_view(s)[i] == (x + y)[i] by {
            if i < x.len() {
                assert(c[a.len() + i] == b[a.len() + i]) by {
                    assert(c.take(b.len() as int)[a.len() + i] == b[a.len() + i]);
                }
                assert(code_view(b.skip(a.len() as int))[i] == x[i]);
            } else {
                assert(code_view(c.skip(b.len() as int))[i - x.len()] == y[i - x.len()]);
            }
        }
    }
}

pub proof fn lemma_appended_pushes(old: Seq<Instruction>, added: Seq<Instruction>)
    ensures
        appended(old, old + added, code_view(added)),
{
    assert((old + added).take(old.len() as int) =~= old);
    assert((old + added).skip(old.len() as int) =~= added);
}

proof fn lemma_write_stdout_code(target: Target, pointer: Register, length: Register, s: Seq<Instruction>)
    requires
        write_stdout_ok(target, pointer, length, s),
    ensures
        code_view(s) == write_stdout_code(target, pointer, length),
{
    assert(code_view(s) =~= write_stdout_code(target, pointer, length));
}

proof fn lemma_read_stdin_code(target: Target, s: Seq<Instruction>)
    requires
        read_stdin_ok(target, s),
    ensures
        code_view(s) == read_stdin_code(target),
{
    assert(code_view(s) =~= read_stdin_code(target));
}

/// Writes the bytes from `pointer` up to `length` to standard output.
fn write_stdout(target: Target, pointer: Register, length: Register, state: &mut LoweringState, instructions: &mut Vec<Instruction>)
    ensures
        appended(old(instructions)@, final(instructions)@, write_stdout_code(target, pointer, length)),
        final(state).items() == old(state).items(),
        final(state).next_label() == old(state).next_label(),
        final(state).uses_imports() == (old(state).uses_imports() || target.os == OperatingSystem::Windows),
{
    emit_write_stdout(target, pointer, length, state, instructions);
    proof {
        lemma_write_stdout_code(target, pointer, length, instructions@.skip(old(instructions)@.len() as int));
    }
}

/// Releases the frame and returns zero.
pub open spec fn return_zero_code(frame: u32) -> Seq<Ins> {
    seq![Ins::MovRegImm64(Register::Rax, 0), Ins::AddRsp(frame), Ins::Ret]
}

/// `print_int`: the digits of the first argument, with a `-` for a negative one, written
/// from the end of a stack buffer backwards and then to standard output.
pub open spec fn print_int_code(f: Seq<char>, target: Target, n: nat) -> Seq<Ins> {
    let loop_label = rt_label("print_int_loop"@, n);
    let zero_label = rt_label("print_int_zero"@, n + 1);
    let non_negative_label = rt_label("print_int_non_negative"@, n + 2);
    let after_sign_label = rt_label("print_int_after_sign"@, n + 3);
    let done_label = rt_label("print_int_done"@, n + 4);
    let frame = frame_size_of(target);
    seq![
        Ins::Label(f),
        Ins::SubRsp(frame),
        Ins::LeaRegRspOffset(Register::R10, buffer_end_of(target)),
        Ins::LeaRegRspOffset(Register::R11, (buffer_end_of(target) + 1) as i32),
        Ins::MovRegReg(Register::Rax, argument_registers_of(target)[0]),
        Ins::CmpRegImm(Register::Rax, 0),
        Ins::JumpIf(Condition::Equal, zero_label),
        Ins::MovRegImm64(Register::R8, 0),
        Ins::CmpRegImm(Register::Rax, 0),
        Ins::JumpIf(Condition::GreaterEqual, non_negative_label),
        Ins::NegReg(Register::Rax),
        Ins::MovRegImm64(Register::R8, 1),
        Ins::Label(non_negative_label),
        Ins::Label(loop_label),
        Ins::MovRegImm64(Register::Rcx, 10),
        Ins::Cqo,
        Ins::IDivReg(Register::Rcx),
        Ins::AddRegImm(Register::Rdx, 48),
        Ins::MovMemReg8(Register::R10, Register::Rdx),
        Ins::SubRegImm(Register::R10, 1),
        Ins::CmpRegImm(Register::Rax, 0),
        Ins::JumpIf(Condition::NotEqual, loop_label),
        Ins::CmpRegImm(Register::R8, 0),
        Ins::JumpIf(Condition::Equal, after_sign_label),
        Ins::MovRegImm64(Register::Rdx, 45),
        Ins::MovMemReg8(Register::R10, Register::Rdx),
        Ins::Jump(done_label),
        Ins::Label(zero_label),
        Ins::MovRegImm64(Register::Rdx, 48),
        Ins::MovMemReg8(Register::R10, Register::Rdx),
        Ins::Jump(done_label),
        Ins::Label(after_sign_label),
        Ins::AddRegImm(Register::R10, 1),
        Ins::Label(done_label),
        Ins::MovRegReg(Register::R9, Register::R11),
        Ins::SubRegReg(Register::R9, Register::R10),
    ] + write_stdout_code(target, Register::R10, Register::R9) + return_zero_code(frame)
}

/// Appends the instructions.
fn append_code(instructions: &mut Vec<Instruction>, code: Vec<Instruction>)
    ensures
        appended(old(instructions)@, final(instructions)@, code_view(code@)),
{
    let mut code = code;
    let ghost added = code@;
    instructions.append(&mut code);
    proof {
        lemma_appended_pushes(old(instructions)@, added);
    }
}

/// Appends the code that releases the frame and returns zero.
fn emit_return_zero(frame: u32, instructions: &mut Vec<Instruction>)
    ensures
        appended(old(instructions)@, final(instructions)@, return_zero_code(frame)),
{
    let code = vec![Instruction::MovRegImm64(Register::Rax, 0), Instruction::AddRsp(frame), Instruction::Ret];
    append_code(instructions, code);
    assert(code_view(code@) =~= return_zero_code(frame));
}

fn emit_runtime_print_int(function: &MirFunction, target: Target, state: &mut LoweringState, instructions: &mut Vec<Instruction>)
    requires
        old(state).next_label() + 5 < usize::MAX,
    ensures
        appended(old(instructions)@, final(instructions)@, print_int_code(fn_label(*function), target, old(state).next_label())),
        final(state).next_label() == old(state).next_label() + 5,
        final(state).items() == old(state).items(),
        final(state).uses_imports() == (old(state).uses_imports() || target.os == OperatingSystem::Windows),
{
    let ghost start = instructions@;
    let ghost n = state.next_label();
    let loop_label = state.fresh_runtime_label("print_int_loop");
    let zero_label = state.fresh_runtime_label("print_int_zero");
    let non_negative_label = state.fresh_runtime_label("print_int_non_negative");
    let after_sign_label = state.fresh_runtime_label("print_int_after_sign");
    let done_label = state.fresh_runtime_label("print_int_done");
    let frame = runtime_frame_size(target);
    let first = first_argument_register(target);
    let end = runtime_buffer_end_offset(target);
    let code = vec![
        Instruction::Label(function_label(function)),
        Instruction::SubRsp(frame),
        Instruction::LeaRegRspOffset(Register::R10, end),
        Instruction::LeaRegRspOffset(Register::R11, end + 1),
        Instruction::MovRegReg(Register::Rax, first),
        Instruction::CmpRegImm(Register::Rax, 0),
        Instruction::JumpIf(Condition::Equal, zero_label.clone()),
        Instruction::MovRegImm64(Register::R8, 0),
        Instruction::CmpRegImm(Register::Rax, 0),
        Instruction::JumpIf(Condition::GreaterEqual, non_negative_label.clone()),
        Instruction::NegReg(Register::Rax),
        Instruction::MovRegImm64(Register::R8, 1),
        Instruction::Label(non_negative_label),
        Instruction::Label(loop_label.clone()),
        Instruction::MovRegImm64(Register::Rcx, 10),
        Instruction::Cqo,
        Instruction::IDivReg(Register::Rcx),
        Instruction::AddRegImm(Register::Rdx, 48),
        Instruction::MovMemReg8(Register::R10, Register::Rdx),
        Instruction::SubRegImm(Register::R10, 1),
        Instruction::CmpRegImm(Register::Rax, 0),
        Instruction::JumpIf(Condition::NotEqual, loop_label),
        Instruction::CmpRegImm(Register::R8, 0),
        Instruction::JumpIf(Condition::Equal, after_sign_label.clone()),
        Instruction::MovRegImm64(Register::Rdx, 45),
        Instruction::MovMemReg8(Register::R10, Register::Rdx),
        Instruction::Jump(done_label.clone()),
        Instruction::Label(zero_label),
        Instruction::MovRegImm64(Register::Rdx, 48),
        Instruction::MovMemReg8(Register::R10, Register::Rdx),
        Instruction::Jump(done_label.clone()),
        Instruction::Label(after_sign_label),
        Instruction::AddRegImm(Register::R10, 1),
        Instruction::Label(done_label),
        Instruction::MovRegReg(Register::R9, Register::R11),
        Instruction::SubRegReg(Register::R9, Register::R10),
    ];
    let ghost head_code = code_view(code@);
    append_code(instructions, code);
    let ghost head = instructions@;
    write_stdout(target, Register::R10, Register::R9, state, instructions);
    let ghost mid = instructions@;
    emit_return_zero(frame, instructions);
    proof {
        let w = write_stdout_code(target, Register::R10, Register::R9);
        lemma_appended_chain(start, head, mid, head_code, w);
        lemma_appended_chain(start, mid, instructions@, head_code + w, return_zero_code(frame));
        assert(head_code + w + return_zero_code(frame) =~= print_int_code(fn_label(*function), target, n));
    }
}


/// The items grew at the end, the lowering counter and import use as they were.
pub open spec fn items_extended(old: Seq<(Seq<char>, Seq<u8>)>, new: Seq<(Seq<char>, Seq<u8>)>) -> bool {
    new.len() >= old.len() && new.take(old.len() as int) == old
}

proof fn lemma_holds_data_extended(
    old: Seq<(Seq<char>, Seq<u8>)>,
    new: Seq<(Seq<char>, Seq<u8>)>,
    label: Seq<char>,
    bytes: Seq<u8>,
)
    requires
        items_extended(old, new),
        holds_data(old, label, bytes),
    ensures
        holds_data(new, label, bytes),
{
    let i = choose|i: int| 0 <= i < old.len() && old[i] == (label, bytes);
    assert(new.take(old.len() as int)[i] == old[i]);
}

/// The label of data holding the text and a terminating zero.
fn intern_text(state: &mut LoweringState, value: &str) -> (label: String)
    requires
        old(state).items().len() < u64::MAX,
    ensures
        holds_data(final(state).items(), label@, encode_utf8(value@).push(0u8)),
        items_extended(old(state).items(), final(state).items()),
        final(state).items().len() <= old(state).items().len() + 1,
        final(state).next_label() == old(state).next_label(),
        final(state).uses_imports() == old(state).uses_imports(),
{
    let ghost before = state.items();
    let label = state.intern_c_string(value);
    proof {
        let bytes = value.spec_bytes().push(0u8);
        assert(value.spec_bytes() == encode_utf8(value@));
        if exists|i: int| 0 <= i < before.len() && before[i].1 == bytes {
            let i = choose|i: int| 0 <= i < before.len() && before[i].1 == bytes && label@ == before[i].0;
            assert(state.items()[i] == (label@, bytes));
        } else {
            assert(state.items()[before.len() as int] == (label@, bytes));
        }
        assert(state.items().take(before.len() as int) =~= before);
    }
    label
}

/// `print_bool`: `true` or `false` to standard output, by the first argument.
pub open spec fn print_bool_code(f: Seq<char>, target: Target, n: nat, t: Seq<char>, fl: Seq<char>) -> Seq<Ins> {
    let true_label = rt_label("print_bool_true"@, n);
    let done_label = rt_label("print_bool_done"@, n + 1);
    let frame = frame_size_of(target);
    seq![
        Ins::Label(f),
        Ins::SubRsp(frame),
        Ins::CmpRegImm(argument_registers_of(target)[0], 0),
        Ins::JumpIf(Condition::NotEqual, true_label),
        Ins::MovRegDataAddr(Register::R10, fl),
        Ins::MovRegImm64(Register::R9, 5),
        Ins::Jump(done_label),
        Ins::Label(true_label),
        Ins::MovRegDataAddr(Register::R10, t),
        Ins::MovRegImm64(Register::R9, 4),
        Ins::Label(done_label),
    ] + write_stdout_code(target, Register::R10, Register::R9) + return_zero_code(frame)
}

fn emit_runtime_print_bool(function: &MirFunction, target: Target, state: &mut LoweringState, instructions: &mut Vec<Instruction>)
    requires
        old(state).next_label() + 2 < usize::MAX,
        old(state).items().len() + 2 < u64::MAX,
    ensures
        exists|t: Seq<char>, fl: Seq<char>| {
            &&& holds_data(final(state).items(), t, encode_utf8("true"@).push(0u8))
            &&& holds_data(final(state).items(), fl, encode_utf8("false"@).push(0u8))
            &&& appended(old(instructions)@, final(instructions)@, print_bool_code(fn_label(*function), target, old(state).next_label(), t, fl))
        },
        final(state).next_label() == old(state).next_label() + 2,
        items_extended(old(state).items(), final(state).items()),
        final(state).items().len() <= old(state).items().len() + 2,
        final(state).uses_imports() == (old(state).uses_imports() || target.os == OperatingSystem::Windows),
{
    let ghost start = instructions@;
    let ghost n = state.next_label();
    let true_label = state.fresh_runtime_label("print_bool_true");
    let done_label = state.fresh_runtime_label("print_bool_done");
    let frame = runtime_frame_size(target);
    let ghost items0 = state.items();
    let true_data = intern_text(state, "true");
    let ghost items1 = state.items();
    let false_data = intern_text(state, "false");
    proof {
        lemma_holds_data_extended(items1, state.items(), true_data@, encode_utf8("true"@).push(0u8));
        assert(state.items().take(items0.len() as int) =~= items0) by {
            assert forall|i: int| 0 <= i < items0.len() implies state.items()[i] == items0[i] by {
                assert(state.items().take(items1.len() as int)[i] == items1[i]);
                assert(items1.take(items0.len() as int)[i] == items0[i]);
            }
        }
    }
    let ghost t = true_data@;
    let ghost fl = false_data@;
    let first = first_argument_register(target);
    let code = vec![
        Instruction::Label(function_label(function)),
        Instruction::SubRsp(frame),
        Instruction::CmpRegImm(first, 0),
        Instruction::JumpIf(Condition::NotEqual, true_label.clone()),
        Instruction::MovRegDataAddr(Register::R10, false_data),
        Instruction::MovRegImm64(Register::R9, 5),
        Instruction::Jump(done_label.clone()),
        Instruction::Label(true_label),
        Instruction::MovRegDataAddr(Register::R10, true_data),
        Instruction::MovRegImm64(Register::R9, 4),
        Instruction::Label(done_label),
    ];
    let ghost head_code = code_view(code@);
    append_code(instructions, code);
    let ghost head = instructions@;
    write_stdout(target, Register::R10, Register::R9, state, instructions);
    let ghost mid = instructions@;
    emit_return_zero(frame, instructions);
    proof {
        let w = write_stdout_code(target, Register::R10, Register::R9);
        lemma_appended_chain(start, head, mid, head_code, w);
        lemma_appended_chain(start, mid, instructions@, head_code + w, return_zero_code(frame));
        assert(head_code + w + return_zero_code(frame) =~= print_bool_code(fn_label(*function), target, n, t, fl));
    }
}

/// `print_string`: the bytes of the first argument up to its terminating zero.
pub open spec fn print_string_code(f: Seq<char>, target: Target, n: nat) -> Seq<Ins> {
    let loop_label = rt_label("print_string_loop"@, n);
    let done_label = rt_label("print_string_done"@, n + 1);
    let frame = frame_size_of(target);
    seq![
        Ins::Label(f),
        Ins::SubRsp(frame),
        Ins::MovRegReg(Register::R10, argument_registers_of(target)[0]),
        Ins::MovRegReg(Register::R11, argument_registers_of(target)[0]),
        Ins::Label(loop_label),
        Ins::MovzxRegMem8(Register::Rax, Register::R11),
        Ins::CmpRegImm(Register::Rax, 0),
        Ins::JumpIf(Condition::Equal, done_label),
        Ins::AddRegImm(Register::R11, 1),
        Ins::Jump(loop_label),
        Ins::Label(done_label),
        Ins::MovRegReg(Register::R9, Register::R11),
        Ins::SubRegReg(Register::R9, Register::R10),
    ] + write_stdout_code(target, Register::R10, Register::R9) + return_zero_code(frame)
}

fn emit_runtime_print_string(function: &MirFunction, target: Target, state: &mut LoweringState, instructions: &mut Vec<Instruction>)
    requires
        old(state).next_label() + 2 < usize::MAX,
    ensures
        appended(old(instructions)@, final(instructions)@, print_string_code(fn_label(*function), target, old(state).next_label())),
        final(state).next_label() == old(state).next_label() + 2,
        final(state).items() == old(state).items(),
        final(state).uses_imports() == (old(state).uses_imports() || target.os == OperatingSystem::Windows),
{
    let ghost start = instructions@;
    let ghost n = state.next_label();
    let loop_label = state.fresh_runtime_label("print_string_loop");
    let done_label = state.fresh_runtime_label("print_string_done");
    let frame = runtime_frame_size(target);
    let first = first_argument_register(target);
    let code = vec![
        Instruction::Label(function_label(function)),
        Instruction::SubRsp(frame),
        Instruction::MovRegReg(Register::R10, first),
        Instruction::MovRegReg(Register::R11, first),
        Instruction::Label(loop_label.clone()),
        Instruction::MovzxRegMem8(Register::Rax, Register::R11),
        Instruction::CmpRegImm(Register::Rax, 0),
        Instruction::JumpIf(Condition::Equal, done_label.clone()),
        Instruction::AddRegImm(Register::R11, 1),
        Instruction::Jump(loop_label),
        Instruction::Label(done_label),
        Instruction::MovRegReg(Register::R9, Register::R11),
        Instruction::SubRegReg(Register::R9, Register::R10),
    ];
    let ghost head_code = code_view(code@);
    append_code(instructions, code);
    let ghost head = instructions@;
    write_stdout(target, Register::R10, Register::R9, state, instructions);
    let ghost mid = instructions@;
    emit_return_zero(frame, instructions);
    proof {
        let w = write_stdout_code(target, Register::R10, Register::R9);
        lemma_appended_chain(start, head, mid, head_code, w);
        lemma_appended_chain(start, mid, instructions@, head_code + w, return_zero_code(frame));
        assert(head_code + w + return_zero_code(frame) =~= print_string_code(fn_label(*function), target, n));
    }
}

/// `print_newline`: a newline to standard output.
pub open spec fn print_newline_code(f: Seq<char>, target: Target, nl: Seq<char>) -> Seq<Ins> {
    let frame = frame_size_of(target);
    seq![
        Ins::Label(f),
        Ins::SubRsp(frame),
        Ins::MovRegDataAddr(Register::R10, nl),
        Ins::MovRegImm64(Register::R9, 1),
    ] + write_stdout_code(target, Register::R10, Register::R9) + return_zero_code(frame)
}

fn emit_runtime_print_newline(function: &MirFunction, target: Target, state: &mut LoweringState, instructions: &mut Vec<Instruction>)
    requires
        old(state).items().len() < u64::MAX,
    ensures
        exists|nl: Seq<char>| {
            &&& holds_data(final(state).items(), nl, encode_utf8("\n"@).push(0u8))
            &&& appended(old(instructions)@, final(instructions)@, print_newline_code(fn_label(*function), target, nl))
        },
        final(state).next_label() == old(state).next_label(),
        items_extended(old(state).items(), final(state).items()),
        final(state).items().len() <= old(state).items().len() + 1,
        final(state).uses_imports() == (old(state).uses_imports() || target.os == OperatingSystem::Windows),
{
    let ghost start = instructions@;
    let frame = runtime_frame_size(target);
    let newline = intern_text(state, "\n");
    let ghost nl = newline@;
    let code = vec![
        Instruction::Label(function_label(function)),
        Instruction::SubRsp(frame),
        Instruction::MovRegDataAddr(Register::R10, newline),
        Instruction::MovRegImm64(Register::R9, 1),
    ];
    let ghost head_code = code_view(code@);
    append_code(instructions, code);
    let ghost head = instructions@;
    write_stdout(target, Register::R10, Register::R9, state, instructions);
    let ghost mid = instructions@;
    emit_return_zero(frame, instructions);
    proof {
        let w = write_stdout_code(target, Register::R10, Register::R9);
        lemma_appended_chain(start, head, mid, head_code, w);
        lemma_appended_chain(start, mid, instructions@, head_code + w, return_zero_code(frame));
        assert(head_code + w + return_zero_code(frame) =~= print_newline_code(fn_label(*function), target, nl));
    }
}

/// `flush_stdout`: nothing is buffered, so it returns at once.
pub open spec fn flush_stdout_code(f: Seq<char>, target: Target) -> Seq<Ins> {
    seq![Ins::Label(f), Ins::SubRsp(frame_size_of(target))] + return_zero_code(frame_size_of(target))
}

fn emit_runtime_flush_stdout(function: &MirFunction, target: Target, instructions: &mut Vec<Instruction>)
    ensures
        appended(old(instructions)@, final(instructions)@, flush_stdout_code(fn_label(*function), target)),
{
    let ghost start = instructions@;
    let frame = runtime_frame_size(target);
    let code = vec![Instruction::Label(function_label(function)), Instruction::SubRsp(frame)];
    let ghost head_code = code_view(code@);
    append_code(instructions, code);
    let ghost head = instructions@;
    emit_return_zero(frame, instructions);
    proof {
        lemma_appended_chain(start, head, instructions@, head_code, return_zero_code(frame));
        assert(head_code + return_zero_code(frame) =~= flush_stdout_code(fn_label(*function), target));
    }
}

/// `http_get`: there is no network here, so it returns the empty string.
pub open spec fn http_get_code(f: Seq<char>, target: Target, empty: Seq<char>) -> Seq<Ins> {
    seq![
        Ins::Label(f),
        Ins::SubRsp(frame_size_of(target)),
        Ins::MovRegDataAddr(Register::Rax, empty),
        Ins::AddRsp(frame_size_of(target)),
        Ins::Ret,
    ]
}

fn emit_runtime_http_get(function: &MirFunction, target: Target, state: &mut LoweringState, instructions: &mut Vec<Instruction>)
    requires
        old(state).items().len() < u64::MAX,
    ensures
        exists|e: Seq<char>| {
            &&& holds_data(final(state).items(), e, seq![0u8])
            &&& appended(old(instructions)@, final(instructions)@, http_get_code(fn_label(*function), target, e))
        },
        final(state).next_label() == old(state).next_label(),
        items_extended(old(state).items(), final(state).items()),
        final(state).items().len() <= old(state).items().len() + 1,
        final(state).uses_imports() == old(state).uses_imports(),
{
    let frame = runtime_frame_size(target);
    let empty = intern_text(state, "");
    proof {
        reveal_strlit("");
        assert(encode_utf8(""@) =~= Seq::<u8>::empty());
        assert(encode_utf8(""@).push(0u8) =~= seq![0u8]);
    }
    let ghost e = empty@;
    let code = vec![
        Instruction::Label(function_label(function)),
        Instruction::SubRsp(frame),
        Instruction::MovRegDataAddr(Register::Rax, empty),
        Instruction::AddRsp(frame),
        Instruction::Ret,
    ];
    let ghost c = code_view(code@);
    append_code(instructions, code);
    assert(c =~= http_get_code(fn_label(*function), target, e));
}

/// `string_length`: the number of bytes before the terminating zero.
pub open spec fn string_length_code(f: Seq<char>, target: Target) -> Seq<Ins> {
    let loop_label = f + ".len_loop"@;
    let done_label = f + ".len_done"@;
    let frame = frame_size_of(target);
    seq![
        Ins::Label(f),
        Ins::SubRsp(frame),
        Ins::MovRegReg(Register::R10, argument_registers_of(target)[0]),
        Ins::MovRegReg(Register::R11, argument_registers_of(target)[0]),
        Ins::Label(loop_label),
        Ins::MovzxRegMem8(Register::Rax, Register::R11),
        Ins::CmpRegImm(Register::Rax, 0),
        Ins::JumpIf(Condition::Equal, done_label),
        Ins::AddRegImm(Register::R11, 1),
        Ins::Jump(loop_label),
        Ins::Label(done_label),
        Ins::MovRegReg(Register::Rax, Register::R11),
        Ins::SubRegReg(Register::Rax, Register::R10),
        Ins::AddRsp(frame),
        Ins::Ret,
    ]
}

/// The function's label followed by `suffix`.
fn suffixed_label(function: &MirFunction, suffix: &str) -> (s: String)
    ensures
        s@ == fn_label(*function) + suffix@,
{
    let label = function_label(function);
    let mut text = chars_of(label.as_str());
    push_str_chars(&mut text, suffix);
    string_from_chars(&text)
}

fn emit_runtime_string_length(function: &MirFunction, target: Target, instructions: &mut Vec<Instruction>)
    ensures
        appended(old(instructions)@, final(instructions)@, string_length_code(fn_label(*function), target)),
{
    let loop_label = suffixed_label(function, ".len_loop");
    let done_label = suffixed_label(function, ".len_done");
    let frame = runtime_frame_size(target);
    let first = first_argument_register(target);
    let code = vec![
        Instruction::Label(function_label(function)),
        Instruction::SubRsp(frame),
        Instruction::MovRegReg(Register::R10, first),
        Instruction::MovRegReg(Register::R11, first),
        Instruction::Label(loop_label.clone()),
        Instruction::MovzxRegMem8(Register::Rax, Register::R11),
        Instruction::CmpRegImm(Register::Rax, 0),
        Instruction::JumpIf(Condition::Equal, done_label.clone()),
        Instruction::AddRegImm(Register::R11, 1),
        Instruction::Jump(loop_label),
        Instruction::Label(done_label),
        Instruction::MovRegReg(Register::Rax, Register::R11),
        Instruction::SubRegReg(Register::Rax, Register::R10),
        Instruction::AddRsp(frame),
        Instruction::Ret,
    ];
    let ghost c = code_view(code@);
    append_code(instructions, code);
    assert(c =~= string_length_code(fn_label(*function), target));
}

/// `string_byte_at`: the byte at the index given as second argument, or zero when the
/// index is negative or past the terminating zero.
pub open spec fn string_byte_at_code(f: Seq<char>, target: Target) -> Seq<Ins> {
    let loop_label = f + ".byte_loop"@;
    let at_label = f + ".byte_at_index"@;
    let zero_label = f + ".byte_zero"@;
    let frame = frame_size_of(target);
    seq![
        Ins::Label(f),
        Ins::SubRsp(frame),
        Ins::MovRegReg(Register::R10, argument_registers_of(target)[0]),
        Ins::MovRegReg(Register::R11, argument_registers_of(target)[1]),
        Ins::CmpRegImm(Register::R11, 0),
        Ins::JumpIf(Condition::Less, zero_label),
        Ins::Label(loop_label),
        Ins::CmpRegImm(Register::R11, 0),
        Ins::JumpIf(Condition::Equal, at_label),
        Ins::MovzxRegMem8(Register::Rax, Register::R10),
        Ins::CmpRegImm(Register::Rax, 0),
        Ins::JumpIf(Condition::Equal, zero_label),
        Ins::AddRegImm(Register::R10, 1),
        Ins::SubRegImm(Register::R11, 1),
        Ins::Jump(loop_label),
        Ins::Label(at_label),
        Ins::MovzxRegMem8(Register::Rax, Register::R10),
        Ins::CmpRegImm(Register::Rax, 0),
        Ins::JumpIf(Condition::Equal, zero_label),
        Ins::AddRsp(frame),
        Ins::Ret,
        Ins::Label(zero_label),
        Ins::MovRegImm64(Register::Rax, 0),
        Ins::AddRsp(frame),
        Ins::Ret,
    ]
}

fn emit_runtime_string_byte_at(function: &MirFunction, target: Target, instructions: &mut Vec<Instruction>)
    ensures
        appended(old(instructions)@, final(instructions)@, string_byte_at_code(fn_label(*function), target)),
{
    let loop_label = suffixed_label(function, ".byte_loop");
    let at_label = suffixed_label(function, ".byte_at_index");
    let zero_label = suffixed_label(function, ".byte_zero");
    let frame = runtime_frame_size(target);
    let first = first_argument_register(target);
    let second = second_argument_register(target);
    let code = vec![
        Instruction::Label(function_label(function)),
        Instruction::SubRsp(frame),
        Instruction::MovRegReg(Register::R10, first),
        Instruction::MovRegReg(Register::R11, second),
        Instruction::CmpRegImm(Register::R11, 0),
        Instruction::JumpIf(Condition::Less, zero_label.clone()),
        Instruction::Label(loop_label.clone()),
        Instruction::CmpRegImm(Register::R11, 0),
        Instruction::JumpIf(Condition::Equal, at_label.clone()),
        Instruction::MovzxRegMem8(Register::Rax, Register::R10),
        Instruction::CmpRegImm(Register::Rax, 0),
        Instruction::JumpIf(Condition::Equal, zero_label.clone()),
        Instruction::AddRegImm(Register::R10, 1),
        Instruction::SubRegImm(Register::R11, 1),
        Instruction::Jump(loop_label),
        Instruction::Label(at_label),
        Instruction::MovzxRegMem8(Register::Rax, Register::R10),
        Instruction::CmpRegImm(Register::Rax, 0),
        Instruction::JumpIf(Condition::Equal, zero_label.clone()),
        Instruction::AddRsp(frame),
        Instruction::Ret,
        Instruction::Label(zero_label),
        Instruction::MovRegImm64(Register::Rax, 0),
        Instruction::AddRsp(frame),
        Instruction::Ret,
    ];
    let ghost c = code_view(code@);
    append_code(instructions, code);
    assert(c =~= string_byte_at_code(fn_label(*function), target));
}

/// The labels of `read_int`, in the order they are handed out.
pub open spec fn read_int_labels(n: nat) -> Seq<Seq<char>> {
    seq![
        rt_label("read_int_zero"@, n),
        rt_label("read_int_read"@, n + 1),
        rt_label("read_int_check_started"@, n + 2),
        rt_label("read_int_skip_space"@, n + 3),
        rt_label("read_int_negative"@, n + 4),
        rt_label("read_int_first_digit"@, n + 5),
        rt_label("read_int_digit_loop"@, n + 6),
        rt_label("read_int_finish"@, n + 7),
        rt_label("read_int_return"@, n + 8),
    ]
}

/// Clearing the accumulator, the sign and the started flag, then the loop head.
pub open spec fn read_int_start(f: Seq<char>, target: Target, l: Seq<Seq<char>>) -> Seq<Ins> {
    seq![
        Ins::Label(f),
        Ins::SubRsp(frame_size_of(target)),
        Ins::MovRegImm64(Register::Rax, 0),
        Ins::MovStackReg(accumulator_offset_of(target), Register::Rax),
        Ins::MovStackReg(negative_offset_of(target), Register::Rax),
        Ins::MovStackReg(started_offset_of(target), Register::Rax),
        Ins::Label(l[1]),
    ]
}

/// After a byte is read: end of input, white space before the number, a sign, or a digit.
pub open spec fn read_int_dispatch(target: Target, l: Seq<Seq<char>>) -> Seq<Ins> {
    seq![
        Ins::CmpRegImm(Register::Rax, 0),
        Ins::JumpIf(Condition::LessEqual, l[2]),
        Ins::LeaRegRspOffset(Register::R10, input_buffer_offset_of(target)),
        Ins::MovzxRegMem8(Register::Rax, Register::R10),
        Ins::MovRegStack(Register::R9, started_offset_of(target)),
        Ins::CmpRegImm(Register::R9, 0),
        Ins::JumpIf(Condition::Equal, l[3]),
        Ins::Jump(l[6]),
        Ins::Label(l[3]),
        Ins::CmpRegImm(Register::Rax, 32),
        Ins::JumpIf(Condition::Equal, l[1]),
        Ins::CmpRegImm(Register::Rax, 9),
        Ins::JumpIf(Condition::Equal, l[1]),
        Ins::CmpRegImm(Register::Rax, 10),
        Ins::JumpIf(Condition::Equal, l[1]),
        Ins::CmpRegImm(Register::Rax, 13),
        Ins::JumpIf(Condition::Equal, l[1]),
        Ins::CmpRegImm(Register::Rax, 45),
        Ins::JumpIf(Condition::Equal, l[4]),
        Ins::Jump(l[5]),
    ]
}

/// A leading `-` marks the number negative; other bytes before the first digit are skipped.
pub open spec fn read_int_sign(target: Target, l: Seq<Seq<char>>) -> Seq<Ins> {
    seq![
        Ins::Label(l[4]),
        Ins::MovRegImm64(Register::R8, 1),
        Ins::MovStackReg(negative_offset_of(target), Register::R8),
        Ins::MovStackReg(started_offset_of(target), Register::R8),
        Ins::Jump(l[1]),
        Ins::Label(l[5]),
        Ins::CmpRegImm(Register::Rax, 48),
        Ins::JumpIf(Condition::Less, l[1]),
        Ins::CmpRegImm(Register::Rax, 57),
        Ins::JumpIf(Condition::Greater, l[1]),
        Ins::MovRegImm64(Register::R8, 1),
        Ins::MovStackReg(started_offset_of(target), Register::R8),
    ]
}

/// Each digit multiplies the accumulator by ten and adds the digit.
pub open spec fn read_int_digits(target: Target, l: Seq<Seq<char>>) -> Seq<Ins> {
    seq![
        Ins::Label(l[6]),
        Ins::CmpRegImm(Register::Rax, 48),
        Ins::JumpIf(Condition::Less, l[7]),
        Ins::CmpRegImm(Register::Rax, 57),
        Ins::JumpIf(Condition::Greater, l[7]),
        Ins::SubRegImm(Register::Rax, 48),
        Ins::MovRegStack(Register::R9, accumulator_offset_of(target)),
        Ins::MovRegImm64(Register::Rcx, 10),
        Ins::IMulRegReg(Register::R9, Register::Rcx),
        Ins::AddRegReg(Register::R9, Register::Rax),
        Ins::MovStackReg(accumulator_offset_of(target), Register::R9),
        Ins::Jump(l[1]),
    ]
}

/// End of input before any digit gives zero; after digits the sign is applied and the
/// accumulator returned.
pub open spec fn read_int_finish(target: Target, l: Seq<Seq<char>>) -> Seq<Ins> {
    let frame = frame_size_of(target);
    seq![
        Ins::Label(l[2]),
        Ins::MovRegStack(Register::R9, started_offset_of(target)),
        Ins::CmpRegImm(Register::R9, 0),
        Ins::JumpIf(Condition::Equal, l[0]),
        Ins::Jump(l[8]),
        Ins::Label(l[7]),
        Ins::MovRegStack(Register::R8, negative_offset_of(target)),
        Ins::CmpRegImm(Register::R8, 0),
        Ins::JumpIf(Condition::Equal, l[8]),
        Ins::MovRegStack(Register::R9, accumulator_offset_of(target)),
        Ins::NegReg(Register::R9),
        Ins::MovStackReg(accumulator_offset_of(target), Register::R9),
        Ins::Jump(l[8]),
        Ins::Label(l[8]),
        Ins::MovRegStack(Register::Rax, accumulator_offset_of(target)),
        Ins::AddRsp(frame),
        Ins::Ret,
        Ins::Label(l[0]),
        Ins::MovRegImm64(Register::Rax, 0),
        Ins::AddRsp(frame),
        Ins::Ret,
    ]
}

/// `read_int`: a decimal integer from standard input, one byte at a time.
pub open spec fn read_int_code(f: Seq<char>, target: Target, n: nat) -> Seq<Ins> {
    let l = read_int_labels(n);
    read_int_start(f, target, l) + read_stdin_code(target) + read_int_dispatch(target, l) + read_int_sign(target, l)
        + read_int_digits(target, l) + read_int_finish(target, l)
}

fn read_stdin(target: Target, state: &mut LoweringState, instructions: &mut Vec<Instruction>)
    ensures
        appended(old(instructions)@, final(instructions)@, read_stdin_code(target)),
        final(state).items() == old(state).items(),
        final(state).next_label() == old(state).next_label(),
        final(state).uses_imports() == (old(state).uses_imports() || target.os == OperatingSystem::Windows),
{
    emit_read_stdin_byte(target, state, instructions);
    proof {
        lemma_read_stdin_code(target, instructions@.skip(old(instructions)@.len() as int));
    }
}

/// The labels as plain values.
pub open spec fn label_views(v: Seq<String>) -> Seq<Seq<char>> {
    v.map_values(|s: String| s@)
}

fn emit_read_int_dispatch(target: Target, l: &Vec<String>, instructions: &mut Vec<Instruction>)
    requires
        l@.len() == 9,
    ensures
        appended(old(instructions)@, final(instructions)@, read_int_dispatch(target, label_views(l@))),
{
    let input = runtime_input_buffer_offset(target);
    let started = runtime_started_offset(target);
    let code = vec![
        Instruction::CmpRegImm(Register::Rax, 0),
        Instruction::JumpIf(Condition::LessEqual, l[2].clone()),
        Instruction::LeaRegRspOffset(Register::R10, input),
        Instruction::MovzxRegMem8(Register::Rax, Register::R10),
        Instruction::MovRegStack(Register::R9, started),
        Instruction::CmpRegImm(Register::R9, 0),
        Instruction::JumpIf(Condition::Equal, l[3].clone()),
        Instruction::Jump(l[6].clone()),
        Instruction::Label(l[3].clone()),
        Instruction::CmpRegImm(Register::Rax, 32),
        Instruction::JumpIf(Condition::Equal, l[1].clone()),
        Instruction::CmpRegImm(Register::Rax, 9),
        Instruction::JumpIf(Condition::Equal, l[1].clone()),
        Instruction::CmpRegImm(Register::Rax, 10),
        Instruction::JumpIf(Condition::Equal, l[1].clone()),
        Instruction::CmpRegImm(Register::Rax, 13),
        Instruction::JumpIf(Condition::Equal, l[1].clone()),
        Instruction::CmpRegImm(Register::Rax, 45),
        Instruction::JumpIf(Condition::Equal, l[4].clone()),
        Instruction::Jump(l[5].clone()),
    ];
    let ghost c = code_view(code@);
    append_code(instructions, code);
    assert(c =~= read_int_dispatch(target, label_views(l@)));
}

fn emit_read_int_sign(target: Target, l: &Vec<String>, instructions: &mut Vec<Instruction>)
    requires
        l@.len() == 9,
    ensures
        appended(old(instructions)@, final(instructions)@, read_int_sign(target, label_views(l@))),
{
    let negative = runtime_negative_offset(target);
    let started = runtime_started_offset(target);
    let code = vec![
        Instruction::Label(l[4].clone()),
        Instruction::MovRegImm64(Register::R8, 1),
        Instruction::MovStackReg(negative, Register::R8),
        Instruction::MovStackReg(started, Register::R8),
        Instruction::Jump(l[1].clone()),
        Instruction::Label(l[5].clone()),
        Instruction::CmpRegImm(Register::Rax, 48),
        Instruction::JumpIf(Condition::Less, l[1].clone()),
        Instruction::CmpRegImm(Register::Rax, 57),
        Instruction::JumpIf(Condition::Greater, l[1].clone()),
        Instruction::MovRegImm64(Register::R8, 1),
        Instruction::MovStackReg(started, Register::R8),
    ];
    let ghost c = code_view(code@);
    append_code(instructions, code);
    assert(c =~= read_int_sign(target, label_views(l@)));
}

fn emit_read_int_digits(target: Target, l: &Vec<String>, instructions: &mut Vec<Instruction>)
    requires
        l@.len() == 9,
    ensures
        appended(old(instructions)@, final(instructions)@, read_int_digits(target, label_views(l@))),
{
    let accumulator = runtime_accumulator_offset(target);
    let code = vec![
        Instruction::Label(l[6].clone()),
        Instruction::CmpRegImm(Register::Rax, 48),
        Instruction::JumpIf(Condition::Less, l[7].clone()),
        Instruction::CmpRegImm(Register::Rax, 57),
        Instruction::JumpIf(Condition::Greater, l[7].clone()),
        Instruction::SubRegImm(Register::Rax, 48),
        Instruction::MovRegStack(Register::R9, accumulator),
        Instruction::MovRegImm64(Register::Rcx, 10),
        Instruction::IMulRegReg(Register::R9, Register::Rcx),
        Instruction::AddRegReg(Register::R9, Register::Rax),
        Instruction::MovStackReg(accumulator, Register::R9),
        Instruction::Jump(l[1].clone()),
    ];
    let ghost c = code_view(code@);
    append_code(instructions, code);
    assert(c =~= read_int_digits(target, label_views(l@)));
}

fn emit_read_int_finish(target: Target, l: &Vec<String>, instructions: &mut Vec<Instruction>)
    requires
        l@.len() == 9,
    ensures
        appended(old(instructions)@, final(instructions)@, read_int_finish(target, label_views(l@))),
{
    let frame = runtime_frame_size(target);
    let accumulator = runtime_accumulator_offset(target);
    let negative = runtime_negative_offset(target);
    let started = runtime_started_offset(target);
    let code = vec![
        Instruction::Label(l[2].clone()),
        Instruction::MovRegStack(Register::R9, started),
        Instruction::CmpRegImm(Register::R9, 0),
        Instruction::JumpIf(Condition::Equal, l[0].clone()),
        Instruction::Jump(l[8].clone()),
        Instruction::Label(l[7].clone()),
        Instruction::MovRegStack(Register::R8, negative),
        Instruction::CmpRegImm(Register::R8, 0),
        Instruction::JumpIf(Condition::Equal, l[8].clone()),
        Instruction::MovRegStack(Register::R9, accumulator),
        Instruction::NegReg(Register::R9),
        Instruction::MovStackReg(accumulator, Register::R9),
        Instruction::Jump(l[8].clone()),
        Instruction::Label(l[8].clone()),
        Instruction::MovRegStack(Register::Rax, accumulator),
        Instruction::AddRsp(frame),
        Instruction::Ret,
        Instruction::Label(l[0].clone()),
        Instruction::MovRegImm64(Register::Rax, 0),
        Instruction::AddRsp(frame),
        Instruction::Ret,
    ];
    let ghost c = code_view(code@);
    append_code(instructions, code);
    assert(c =~= read_int_finish(target, label_views(l@)));
}

fn emit_runtime_read_int(function: &MirFunction, target: Target, state: &mut LoweringState, instructions: &mut Vec<Instruction>)
    requires
        old(state).next_label() + 9 < usize::MAX,
    ensures
        appended(old(instructions)@, final(instructions)@, read_int_code(fn_label(*function), target, old(state).next_label())),
        final(state).next_label() == old(state).next_label() + 9,
        final(state).items() == old(state).items(),
        final(state).uses_imports() == (old(state).uses_imports() || target.os == OperatingSystem::Windows),
{
    let ghost start = instructions@;
    let ghost n = state.next_label();
    let mut l: Vec<String> = Vec::new();
    l.push(state.fresh_runtime_label("read_int_zero"));
    l.push(state.fresh_runtime_label("read_int_read"));
    l.push(state.fresh_runtime_label("read_int_check_started"));
    l.push(state.fresh_runtime_label("read_int_skip_space"));
    l.push(state.fresh_runtime_label("read_int_negative"));
    l.push(state.fresh_runtime_label("read_int_first_digit"));
    l.push(state.fresh_runtime_label("read_int_digit_loop"));
    l.push(state.fresh_runtime_label("read_int_finish"));
    l.push(state.fresh_runtime_label("read_int_return"));
    let ghost lv = label_views(l@);
    assert(lv =~= read_int_labels(n));
    let frame = runtime_frame_size(target);
    let accumulator = runtime_accumulator_offset(target);
    let negative = runtime_negative_offset(target);
    let started = runtime_started_offset(target);
    let code = vec![
        Instruction::Label(function_label(function)),
        Instruction::SubRsp(frame),
        Instruction::MovRegImm64(Register::Rax, 0),
        Instruction::MovStackReg(accumulator, Register::Rax),
        Instruction::MovStackReg(negative, Register::Rax),
        Instruction::MovStackReg(started, Register::Rax),
        Instruction::Label(l[1].clone()),
    ];
    let ghost c0 = code_view(code@);
    append_code(instructions, code);
    let ghost s1 = instructions@;
    assert(c0 =~= read_int_start(fn_label(*function), target, lv));
    read_stdin(target, state, instructions);
    let ghost s2 = instructions@;
    emit_read_int_dispatch(target, &l, instructions);
    let ghost s3 = instructions@;
    emit_read_int_sign(target, &l, instructions);
    let ghost s4 = instructions@;
    emit_read_int_digits(target, &l, instructions);
    let ghost s5 = instructions@;
    emit_read_int_finish(target, &l, instructions);
    proof {
        let f = fn_label(*function);
        let a = read_int_start(f, target, lv);
        let b = read_stdin_code(target);
        let c = read_int_dispatch(target, lv);
        let d = read_int_sign(target, lv);
        let e = read_int_digits(target, lv);
        let g = read_int_finish(target, lv);
        lemma_appended_chain(start, s1, s2, a, b);
        lemma_appended_chain(start, s2, s3, a + b, c);
        lemma_appended_chain(start, s3, s4, a + b + c, d);
        lemma_appended_chain(start, s4, s5, a + b + c + d, e);
        lemma_appended_chain(start, s5, instructions@, a + b + c + d + e, g);
    }
}

/// Whether a name is one of the runtime functions the back end provides.
pub open spec fn is_runtime_name(name: Seq<char>) -> bool {
    ||| name == "print_int"@
    ||| name == "print_bool"@
    ||| name == "print_string"@
    ||| name == "print_newline"@
    ||| name == "flush_stdout"@
    ||| name == "read_int"@
    ||| name == "http_get"@
    ||| name == "string_length"@
    ||| name == "string_byte_at"@
}

/// A declared function the back end provides: a free function with a runtime name.
pub open spec fn runtime_declaration(f: MirFunction) -> bool {
    f.receiver is None && is_runtime_name(f.name@)
}

pub fn is_supported_runtime_declaration(function: &MirFunction) -> (r: bool)
    ensures
        r == runtime_declaration(*function),
{
    if function.receiver.is_some() {
        return false;
    }
    let name = function.name.as_str();
    str_eq(name, "print_int") || str_eq(name, "print_bool") || str_eq(name, "print_string") || str_eq(
        name,
        "print_newline",
    ) || str_eq(name, "flush_stdout") || str_eq(name, "read_int") || str_eq(name, "http_get") || str_eq(
        name,
        "string_length",
    ) || str_eq(name, "string_byte_at")
}

pub open spec fn unimplemented_runtime_message(f: MirFunction) -> Seq<char> {
    "native codegen does not yet implement declared runtime function `"@ + callable_text(f) + "`"@
}

/// The routine for a runtime function was appended to the code.
pub open spec fn routine_emitted(
    f: MirFunction,
    target: Target,
    s0: LoweringState,
    s1: LoweringState,
    i0: Seq<Instruction>,
    i1: Seq<Instruction>,
) -> bool {
    let l = fn_label(f);
    let n = s0.next_label();
    let name = f.name@;
    if name == "print_int"@ {
        appended(i0, i1, print_int_code(l, target, n))
    } else if name == "print_bool"@ {
        exists|t: Seq<char>, fl: Seq<char>| {
            &&& holds_data(s1.items(), t, encode_utf8("true"@).push(0u8))
            &&& holds_data(s1.items(), fl, encode_utf8("false"@).push(0u8))
            &&& appended(i0, i1, print_bool_code(l, target, n, t, fl))
        }
    } else if name == "print_string"@ {
        appended(i0, i1, print_string_code(l, target, n))
    } else if name == "print_newline"@ {
        exists|nl: Seq<char>| holds_data(s1.items(), nl, encode_utf8("\n"@).push(0u8))
            && appended(i0, i1, print_newline_code(l, target, nl))
    } else if name == "flush_stdout"@ {
        appended(i0, i1, flush_stdout_code(l, target))
    } else if name == "read_int"@ {
        appended(i0, i1, read_int_code(l, target, n))
    } else if name == "http_get"@ {
        exists|e: Seq<char>| holds_data(s1.items(), e, seq![0u8]) && appended(i0, i1, http_get_code(l, target, e))
    } else if name == "string_length"@ {
        appended(i0, i1, string_length_code(l, target))
    } else {
        appended(i0, i1, string_byte_at_code(l, target))
    }
}

/// Appends the routine of a declared runtime function; a declaration the back end does
/// not provide is an error.
pub fn emit_runtime_function(function: &MirFunction, target: Target, state: &mut LoweringState, instructions: &mut Vec<Instruction>)
    -> (r: Result<(), CodegenError>)
    requires
        old(state).next_label() + 9 < usize::MAX,
        old(state).items().len() + 2 < u64::MAX,
    ensures
        !runtime_declaration(*function) ==> {
            &&& r is Err
            &&& r->Err_0.message@ == unimplemented_runtime_message(*function)
            &&& final(instructions)@ == old(instructions)@
            &&& *final(state) == *old(state)
        },
        runtime_declaration(*function) ==> {
            &&& r is Ok
            &&& routine_emitted(*function, target, *old(state), *final(state), old(instructions)@, final(instructions)@)
            &&& items_extended(old(state).items(), final(state).items())
            &&& final(state).items().len() <= old(state).items().len() + 2
            &&& final(state).next_label() <= old(state).next_label() + 9
        },
{
    if !is_supported_runtime_declaration(function) {
        let name = callable_name(function);
        let mut message = chars_of("native codegen does not yet implement declared runtime function `");
        push_str_chars(&mut message, name.as_str());
        push_str_chars(&mut message, "`");
        return Err(CodegenError::from_chars(&message));
    }
    proof {
        reveal_strlit("print_int");
        reveal_strlit("print_bool");
        reveal_strlit("print_string");
        reveal_strlit("print_newline");
        reveal_strlit("flush_stdout");
        reveal_strlit("read_int");
        reveal_strlit("http_get");
        reveal_strlit("string_length");
        reveal_strlit("string_byte_at");
        assert(state.items().take(state.items().len() as int) =~= state.items());
    }
    let name = function.name.as_str();
    if str_eq(name, "print_int") {
        emit_runtime_print_int(function, target, state, instructions);
    } else if str_eq(name, "print_bool") {
        emit_runtime_print_bool(function, target, state, instructions);
    } else if str_eq(name, "print_string") {
        emit_runtime_print_string(function, target, state, instructions);
    } else if str_eq(name, "print_newline") {
        emit_runtime_print_newline(function, target, state, instructions);
    } else if str_eq(name, "flush_stdout") {
        emit_runtime_flush_stdout(function, target, instructions);
    } else if str_eq(name, "read_int") {
        emit_runtime_read_int(function, target, state, instructions);
    } else if str_eq(name, "http_get") {
        emit_runtime_http_get(function, target, state, instructions);
    } else if str_eq(name, "string_length") {
        emit_runtime_string_length(function, target, instructions);
    } else {
        emit_runtime_string_byte_at(function, target, instructions);
    }
    Ok(())
}

/// Writing the string `main` returned, when it is not null and not empty.
pub open spec fn entry_string_write(target: Target) -> Seq<Ins> {
    let len_loop = "__ml_entry_string_len_loop"@;
    let len_done = "__ml_entry_string_len_done"@;
    let len_empty = "__ml_entry_string_len_empty"@;
    let write_skip = "__ml_entry_string_write_skip"@;
    let write_done = "__ml_entry_string_write_done"@;
    seq![
        Ins::MovRegReg(Register::R10, Register::Rax),
        Ins::MovRegReg(Register::R11, Register::Rax),
        Ins::CmpRegImm(Register::R10, 0),
        Ins::JumpIf(Condition::Equal, len_empty),
        Ins::Label(len_loop),
        Ins::MovzxRegMem8(Register::Rax, Register::R11),
        Ins::CmpRegImm(Register::Rax, 0),
        Ins::JumpIf(Condition::Equal, len_done),
        Ins::AddRegImm(Register::R11, 1),
        Ins::Jump(len_loop),
        Ins::Label(len_done),
        Ins::MovRegReg(Register::R9, Register::R11),
        Ins::SubRegReg(Register::R9, Register::R10),
        Ins::Jump(write_skip),
        Ins::Label(len_empty),
        Ins::MovRegImm64(Register::R9, 0),
        Ins::Label(write_skip),
        Ins::CmpRegImm(Register::R9, 0),
        Ins::JumpIf(Condition::Equal, write_done),
    ] + write_stdout_code(target, Register::R10, Register::R9) + seq![Ins::Label(write_done)]
}

/// The program's entry point: it calls `main` and ends the process with its result as
/// exit code (zero for `()`), after writing a returned string to standard output.
pub open spec fn entry_code(main: MirFunction, target: Target) -> Seq<Ins> {
    let f = fn_label(main);
    let ret = *main.signature.return_type;
    match target.os {
        OperatingSystem::Linux => seq![Ins::Label("_start"@), Ins::Call(f)] + match ret {
            Type::String => entry_string_write(target) + seq![Ins::MovRegImm64(Register::Rdi, 0)],
            Type::Unit => seq![Ins::MovRegImm64(Register::Rdi, 0)],
            _ => seq![Ins::MovRegReg(Register::Rdi, Register::Rax)],
        } + seq![Ins::MovRegImm64(Register::Rax, 60), Ins::Syscall, Ins::Ud2],
        OperatingSystem::Windows => seq![Ins::Label("mainCRTStartup"@), Ins::SubRsp(40), Ins::Call(f)] + match ret {
            Type::String => entry_string_write(target) + seq![Ins::MovRegImm64(Register::Rax, 0)],
            Type::Unit => seq![Ins::MovRegImm64(Register::Rax, 0)],
            _ => Seq::empty(),
        } + seq![Ins::AddRsp(40), Ins::Ret],
    }
}

fn emit_entry_string_write(target: Target, state: &mut LoweringState, instructions: &mut Vec<Instruction>)
    ensures
        appended(old(instructions)@, final(instructions)@, entry_string_write(target)),
        final(state).items() == old(state).items(),
        final(state).next_label() == old(state).next_label(),
        final(state).uses_imports() == (old(state).uses_imports() || target.os == OperatingSystem::Windows),
{
    let ghost start = instructions@;
    let len_loop = owned("__ml_entry_string_len_loop");
    let len_done = owned("__ml_entry_string_len_done");
    let len_empty = owned("__ml_entry_string_len_empty");
    let write_skip = owned("__ml_entry_string_write_skip");
    let write_done = owned("__ml_entry_string_write_done");
    let code = vec![
        Instruction::MovRegReg(Register::R10, Register::Rax),
        Instruction::MovRegReg(Register::R11, Register::Rax),
        Instruction::CmpRegImm(Register::R10, 0),
        Instruction::JumpIf(Condition::Equal, len_empty.clone()),
        Instruction::Label(len_loop.clone()),
        Instruction::MovzxRegMem8(Register::Rax, Register::R11),
        Instruction::CmpRegImm(Register::Rax, 0),
        Instruction::JumpIf(Condition::Equal, len_done.clone()),
        Instruction::AddRegImm(Register::R11, 1),
        Instruction::Jump(len_loop),
        Instruction::Label(len_done),
        Instruction::MovRegReg(Register::R9, Register::R11),
        Instruction::SubRegReg(Register::R9, Register::R10),
        Instruction::Jump(write_skip.clone()),
        Instruction::Label(len_empty),
        Instruction::MovRegImm64(Register::R9, 0),
        Instruction::Label(write_skip),
        Instruction::CmpRegImm(Register::R9, 0),
        Instruction::JumpIf(Condition::Equal, write_done.clone()),
    ];
    let ghost head_code = code_view(code@);
    append_code(instructions, code);
    let ghost head = instructions@;
    write_stdout(target, Register::R10, Register::R9, state, instructions);
    let ghost mid = instructions@;
    let tail = vec![Instruction::Label(write_done)];
    let ghost tail_code = code_view(tail@);
    append_code(instructions, tail);
    proof {
        let w = write_stdout_code(target, Register::R10, Register::R9);
        lemma_appended_chain(start, head, mid, head_code, w);
        lemma_appended_chain(start, mid, instructions@, head_code + w, tail_code);
        assert(head_code + w + tail_code =~= entry_string_write(target));
    }
}

/// Appends the program's entry point.
pub fn emit_entry_wrapper(main: &MirFunction, target: Target, state: &mut LoweringState, instructions: &mut Vec<Instruction>)
    ensures
        appended(old(instructions)@, final(instructions)@, entry_code(*main, target)),
        final(state).items() == old(state).items(),
        final(state).next_label() == old(state).next_label(),
        final(state).uses_imports() == (old(state).uses_imports() || (target.os == OperatingSystem::Windows
            && *main.signature.return_type is String)),
{
    let ghost start = instructions@;
    let entry = owned(target.entry_symbol());
    let label = function_label(main);
    let head = match target.os {
        OperatingSystem::Linux => vec![Instruction::Label(entry), Instruction::Call(label)],
        OperatingSystem::Windows => vec![Instruction::Label(entry), Instruction::SubRsp(40), Instruction::Call(label)],
    };
    let ghost head_code = code_view(head@);
    append_code(instructions, head);
    let ghost s1 = instructions@;
    let ghost middle_code: Seq<Ins>;
    match &*main.signature.return_type {
        Type::String => {
            emit_entry_string_write(target, state, instructions);
            let ghost s2 = instructions@;
            let zero = match target.os {
                OperatingSystem::Linux => vec![Instruction::MovRegImm64(Register::Rdi, 0)],
                OperatingSystem::Windows => vec![Instruction::MovRegImm64(Register::Rax, 0)],
            };
            let ghost z = code_view(zero@);
            append_code(instructions, zero);
            proof {
                lemma_appended_chain(s1, s2, instructions@, entry_string_write(target), z);
                middle_code = entry_string_write(target) + z;
            }
        },
        Type::Unit => {
            let zero = match target.os {
                OperatingSystem::Linux => vec![Instruction::MovRegImm64(Register::Rdi, 0)],
                OperatingSystem::Windows => vec![Instruction::MovRegImm64(Register::Rax, 0)],
            };
            let ghost z = code_view(zero@);
            append_code(instructions, zero);
            proof {
                middle_code = z;
            }
        },
        _ => {
            let result = match target.os {
                OperatingSystem::Linux => vec![Instruction::MovRegReg(Register::Rdi, Register::Rax)],
                OperatingSystem::Windows => Vec::new(),
            };
            let ghost z = code_view(result@);
            append_code(instructions, result);
            proof {
                middle_code = z;
            }
        },
    }
    let ghost s3 = instructions@;
    let tail = match target.os {
        OperatingSystem::Linux => vec![
            Instruction::MovRegImm64(Register::Rax, 60),
            Instruction::Syscall,
            Instruction::Ud2,
        ],
        OperatingSystem::Windows => vec![Instruction::AddRsp(40), Instruction::Ret],
    };
    let ghost tail_code = code_view(tail@);
    append_code(instructions, tail);
    proof {
        reveal_strlit("_start");
        reveal_strlit("mainCRTStartup");
        lemma_appended_chain(start, s1, s3, head_code, middle_code);
        lemma_appended_chain(start, s3, instructions@, head_code + middle_code, tail_code);
        assert(head_code + middle_code + tail_code =~= entry_code(*main, target));
    }
}
} // verus!
