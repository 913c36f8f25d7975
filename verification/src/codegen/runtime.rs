//! Lowering state and the instruction sequences of the runtime routines: stack-frame
//! offsets, system calls and imported calls for output and input, and constants.

use vstd::prelude::*;
use vstd::string::StringSliceAdditionalSpecFns;
use vstd::utf8::encode_utf8;
use crate::mir::ConstantValue;
use crate::text::{chars_of, decimal, decimal_chars, i64_value, owned, parse_i64, push_str_chars, string_from_chars};
use super::{CodegenError, OperatingSystem, Target};
use super::image::{DataItem, WIN_IMPORT_GET_STD_HANDLE, WIN_IMPORT_READ_FILE, WIN_IMPORT_WRITE_FILE};
use super::x86::{Condition, Instruction, Register};

verus! {

/// The label of the `n`-th interned data item.
pub open spec fn data_label(n: nat) -> Seq<char> {
    "__ml_data_"@ + decimal(n)
}

/// Whether no two data items hold the same bytes.
pub open spec fn distinct_data(items: Seq<(Seq<char>, Seq<u8>)>) -> bool {
    forall|i: int, j: int| 0 <= i < items.len() && 0 <= j < items.len() && i != j ==> items[i].1 != items[j].1
}

/// What lowering accumulates beside the instructions: interned data, a counter for
/// fresh labels, and whether the Windows imports are used.
pub struct LoweringState {
    data_items: Vec<DataItem>,
    next_runtime_label: usize,
    uses_windows_runtime_imports: bool,
}

impl LoweringState {
    /// The interned data items as label and bytes, in order.
    pub closed spec fn items(&self) -> Seq<(Seq<char>, Seq<u8>)> {
        self.data_items@.map_values(|d: DataItem| (d.label@, d.bytes@))
    }

    pub closed spec fn next_label(&self) -> nat {
        self.next_runtime_label as nat
    }

    pub closed spec fn uses_imports(&self) -> bool {
        self.uses_windows_runtime_imports
    }

    #[verifier::type_invariant]
    spec fn inv(self) -> bool {
        distinct_data(self.items())
    }

    pub fn new() -> (s: Self)
        ensures
            s.items() == Seq::<(Seq<char>, Seq<u8>)>::empty(),
            s.next_label() == 0,
            !s.uses_imports(),
    {
        let s = LoweringState { data_items: Vec::new(), next_runtime_label: 0, uses_windows_runtime_imports: false };
        assert(s.items() =~= Seq::<(Seq<char>, Seq<u8>)>::empty());
        s
    }

    pub fn data_items(&self) -> (v: &Vec<DataItem>)
        ensures
            v@.map_values(|d: DataItem| (d.label@, d.bytes@)) == self.items(),
    {
        &self.data_items
    }

    /// The interned data items, in order.
    pub fn into_data_items(self) -> (v: Vec<DataItem>)
        ensures
            v@.map_values(|d: DataItem| (d.label@, d.bytes@)) == self.items(),
    {
        self.data_items
    }

    /// How many fresh labels were handed out.
    pub fn label_count(&self) -> (n: usize)
        ensures
            n as nat == self.next_label(),
    {
        self.next_runtime_label
    }

    pub fn uses_windows_runtime_imports(&self) -> (b: bool)
        ensures
            b == self.uses_imports(),
    {
        self.uses_windows_runtime_imports
    }

    /// Marks the Windows imports as used.
    pub fn use_windows_imports(&mut self)
        ensures
            final(self).items() == old(self).items(),
            final(self).next_label() == old(self).next_label(),
            final(self).uses_imports(),
    {
        proof {
            use_type_invariant(&*self);
        }
        self.uses_windows_runtime_imports = true;
    }

    /// The label of the data item holding `bytes`, added if there is none.
    pub fn intern_bytes(&mut self, bytes: Vec<u8>) -> (label: String)
        requires
            old(self).items().len() < u64::MAX,
        ensures
            final(self).next_label() == old(self).next_label(),
            final(self).uses_imports() == old(self).uses_imports(),
            (exists|i: int| 0 <= i < old(self).items().len() && old(self).items()[i].1 == bytes@) ==> {
                &&& final(self).items() == old(self).items()
                &&& exists|i: int| 0 <= i < old(self).items().len() && old(self).items()[i].1 == bytes@
                    && label@ == old(self).items()[i].0
            },
            !(exists|i: int| 0 <= i < old(self).items().len() && old(self).items()[i].1 == bytes@) ==> {
                &&& label@ == data_label(old(self).items().len())
                &&& final(self).items() == old(self).items().push((label@, bytes@))
            },
    {
        proof {
            use_type_invariant(&*self);
        }
        let mut i: usize = 0;
        while i < self.data_items.len()
            invariant
                i <= self.data_items@.len(),
                forall|k: int| 0 <= k < i ==> self.items()[k].1 != bytes@,
            decreases self.data_items@.len() - i,
        {
            if bytes_equal(&self.data_items[i].bytes, &bytes) {
                let label = self.data_items[i].label.clone();
                proof {
                    assert(self.items()[i as int].1 == bytes@);
                }
                return label;
            }
            i += 1;
        }
        let mut text = chars_of("__ml_data_");
        let mut digits = decimal_chars(self.data_items.len() as u64);
        text.append(&mut digits);
        let label = string_from_chars(&text);
        let stored = string_from_chars(&text);
        let ghost before = self.items();
        let mut items = Vec::new();
        std::mem::swap(&mut items, &mut self.data_items);
        items.push(DataItem { label: stored, bytes });
        proof {
            let now = items@.map_values(|d: DataItem| (d.label@, d.bytes@));
            assert(now =~= before.push((label@, bytes@)));
        }
        self.data_items = items;
        label
    }

    /// The label of the data item holding the string's bytes and a terminating zero.
    pub fn intern_c_string(&mut self, value: &str) -> (label: String)
        requires
            old(self).items().len() < u64::MAX,
        ensures
            final(self).next_label() == old(self).next_label(),
            final(self).uses_imports() == old(self).uses_imports(),
            ({
                let bytes = value.spec_bytes().push(0u8);
                &&& (exists|i: int| 0 <= i < old(self).items().len() && old(self).items()[i].1 == bytes) ==> {
                    &&& final(self).items() == old(self).items()
                    &&& exists|i: int| 0 <= i < old(self).items().len() && old(self).items()[i].1 == bytes
                        && label@ == old(self).items()[i].0
                }
                &&& !(exists|i: int| 0 <= i < old(self).items().len() && old(self).items()[i].1 == bytes) ==> {
                    &&& label@ == data_label(old(self).items().len())
                    &&& final(self).items() == old(self).items().push((label@, bytes))
                }
            }),
    {
        let mut bytes: Vec<u8> = Vec::new();
        crate::bytes::extend_bytes(&mut bytes, value.as_bytes());
        bytes.push(0);
        proof {
            assert(bytes@ =~= value.spec_bytes().push(0u8));
        }
        self.intern_bytes(bytes)
    }

    /// A label not handed out before: `__ml_rt_<prefix>_<n>`.
    pub fn fresh_runtime_label(&mut self, prefix: &str) -> (label: String)
        requires
            old(self).next_label() < usize::MAX,
        ensures
            label@ == "__ml_rt_"@ + prefix@ + "_"@ + decimal(old(self).next_label()),
            final(self).next_label() == old(self).next_label() + 1,
            final(self).items() == old(self).items(),
            final(self).uses_imports() == old(self).uses_imports(),
    {
        proof {
            use_type_invariant(&*self);
        }
        let mut text = chars_of("__ml_rt_");
        push_str_chars(&mut text, prefix);
        push_str_chars(&mut text, "_");
        let mut digits = decimal_chars(self.next_runtime_label as u64);
        text.append(&mut digits);
        self.next_runtime_label = self.next_runtime_label + 1;
        string_from_chars(&text)
    }
}

/// Whether the two byte strings are equal.
fn bytes_equal(a: &Vec<u8>, b: &Vec<u8>) -> (r: bool)
    ensures
        r == (a@ == b@),
{
    if a.len() != b.len() {
        return false;
    }
    let mut i: usize = 0;
    while i < a.len()
        invariant
            a@.len() == b@.len(),
            i <= a@.len(),
            forall|k: int| 0 <= k < i ==> a@[k] == b@[k],
        decreases a@.len() - i,
    {
        if a[i] != b[i] {
            return false;
        }
        i += 1;
    }
    assert(a@ =~= b@);
    true
}

/// The frame the runtime routines reserve.
pub open spec fn frame_size_of(t: Target) -> u32 {
    match t.os { OperatingSystem::Linux => 128, OperatingSystem::Windows => 176 }
}

/// Where the output buffer of the runtime routines ends.
pub open spec fn buffer_end_of(t: Target) -> i32 {
    match t.os { OperatingSystem::Linux => 127, OperatingSystem::Windows => 175 }
}

/// Where `WriteFile` and `ReadFile` store the byte count.
pub open spec fn written_offset_of(t: Target) -> i32 {
    match t.os { OperatingSystem::Linux => 0, OperatingSystem::Windows => 40 }
}

pub open spec fn accumulator_offset_of(t: Target) -> i32 {
    match t.os { OperatingSystem::Linux => 0, OperatingSystem::Windows => 48 }
}

pub open spec fn negative_offset_of(t: Target) -> i32 {
    match t.os { OperatingSystem::Linux => 8, OperatingSystem::Windows => 56 }
}

pub open spec fn started_offset_of(t: Target) -> i32 {
    match t.os { OperatingSystem::Linux => 16, OperatingSystem::Windows => 64 }
}

/// Where the fifth argument of a Windows call goes.
pub open spec fn windows_arg5_offset_of(t: Target) -> i32 {
    match t.os { OperatingSystem::Linux => 0, OperatingSystem::Windows => 32 }
}

/// Where the byte read from standard input is stored.
pub open spec fn input_buffer_offset_of(t: Target) -> i32 {
    match t.os { OperatingSystem::Linux => 24, OperatingSystem::Windows => 72 }
}

pub fn runtime_frame_size(target: Target) -> (r: u32)
    ensures
        r == frame_size_of(target),
{
    match target.os { OperatingSystem::Linux => 128, OperatingSystem::Windows => 176 }
}

pub fn runtime_buffer_end_offset(target: Target) -> (r: i32)
    ensures
        r == buffer_end_of(target),
{
    match target.os { OperatingSystem::Linux => 127, OperatingSystem::Windows => 175 }
}

pub fn runtime_written_offset(target: Target) -> (r: i32)
    ensures
        r == written_offset_of(target),
{
    match target.os { OperatingSystem::Linux => 0, OperatingSystem::Windows => 40 }
}

pub fn runtime_accumulator_offset(target: Target) -> (r: i32)
    ensures
        r == accumulator_offset_of(target),
{
    match target.os { OperatingSystem::Linux => 0, OperatingSystem::Windows => 48 }
}

pub fn runtime_negative_offset(target: Target) -> (r: i32)
    ensures
        r == negative_offset_of(target),
{
    match target.os { OperatingSystem::Linux => 8, OperatingSystem::Windows => 56 }
}

pub fn runtime_started_offset(target: Target) -> (r: i32)
    ensures
        r == started_offset_of(target),
{
    match target.os { OperatingSystem::Linux => 16, OperatingSystem::Windows => 64 }
}

pub fn runtime_windows_arg5_offset(target: Target) -> (r: i32)
    ensures
        r == windows_arg5_offset_of(target),
{
    match target.os { OperatingSystem::Linux => 0, OperatingSystem::Windows => 32 }
}

pub fn runtime_input_buffer_offset(target: Target) -> (r: i32)
    ensures
        r == input_buffer_offset_of(target),
{
    match target.os { OperatingSystem::Linux => 24, OperatingSystem::Windows => 72 }
}

/// Where outgoing stack arguments start above `rsp`: after the 32-byte shadow space on
/// Windows.
pub fn stack_arg_base(target: Target) -> (r: usize)
    ensures
        r == match target.os { OperatingSystem::Linux => 0usize, OperatingSystem::Windows => 32usize },
{
    match target.os {
        OperatingSystem::Linux => 0,
        OperatingSystem::Windows => 32,
    }
}

/// Where incoming stack arguments start above the frame: past the return address, and
/// on Windows past the shadow space too.
pub fn incoming_stack_arg_base(target: Target) -> (r: usize)
    ensures
        r == match target.os { OperatingSystem::Linux => 8usize, OperatingSystem::Windows => 40usize },
{
    match target.os {
        OperatingSystem::Linux => 8,
        OperatingSystem::Windows => 40,
    }
}

/// The registers that carry the first integer arguments: System V on Linux, the
/// Microsoft x64 convention on Windows.
pub open spec fn argument_registers_of(t: Target) -> Seq<Register> {
    match t.os {
        OperatingSystem::Linux => seq![Register::Rdi, Register::Rsi, Register::Rdx, Register::Rcx, Register::R8, Register::R9],
        OperatingSystem::Windows => seq![Register::Rcx, Register::Rdx, Register::R8, Register::R9],
    }
}

pub fn argument_registers(target: Target) -> (r: Vec<Register>)
    ensures
        r@ == argument_registers_of(target),
{
    let r = match target.os {
        OperatingSystem::Linux => vec![Register::Rdi, Register::Rsi, Register::Rdx, Register::Rcx, Register::R8, Register::R9],
        OperatingSystem::Windows => vec![Register::Rcx, Register::Rdx, Register::R8, Register::R9],
    };
    assert(r@ =~= argument_registers_of(target));
    r
}

pub fn first_argument_register(target: Target) -> (r: Register)
    ensures
        r == argument_registers_of(target)[0],
{
    let registers = argument_registers(target);
    registers[0]
}

pub fn second_argument_register(target: Target) -> (r: Register)
    ensures
        r == argument_registers_of(target)[1],
{
    let registers = argument_registers(target);
    registers[1]
}

/// `n` copies of the instructions, one after the other.
pub open spec fn repeated(block: Seq<Instruction>, n: nat) -> Seq<Instruction>
    decreases n,
{
    if n == 0 { Seq::empty() } else { repeated(block, (n - 1) as nat) + block }
}

/// Copies eight bytes from `[src]` to `[dst]` through `rax` and advances both.
pub open spec fn word_copy(src: Register, dst: Register) -> Seq<Instruction> {
    seq![
        Instruction::MovRegMem(Register::Rax, src),
        Instruction::MovMemReg(dst, Register::Rax),
        Instruction::AddRegImm(src, 8),
        Instruction::AddRegImm(dst, 8),
    ]
}

/// Copies one byte from `[src]` to `[dst]` through `al` and advances both.
pub open spec fn byte_copy(src: Register, dst: Register) -> Seq<Instruction> {
    seq![
        Instruction::MovzxRegMem8(Register::Rax, src),
        Instruction::MovMemReg8(dst, Register::Rax),
        Instruction::AddRegImm(src, 1),
        Instruction::AddRegImm(dst, 1),
    ]
}

/// Emits a copy of `size` bytes: whole words first, then the remaining bytes.
pub fn copy_bytes_fixed(size: usize, src: Register, dst: Register, instructions: &mut Vec<Instruction>) -> (r: Result<(), CodegenError>)
    ensures
        r is Ok,
        final(instructions)@ == old(instructions)@ + repeated(word_copy(src, dst), (size / 8) as nat)
            + repeated(byte_copy(src, dst), (size % 8) as nat),
{
    let mut remaining = size;
    while remaining >= 8
        invariant
            remaining <= size,
            remaining % 8 == size % 8,
            instructions@ == old(instructions)@ + repeated(word_copy(src, dst), ((size - remaining) / 8) as nat),
        decreases remaining,
    {
        let ghost before = instructions@;
        instructions.push(Instruction::MovRegMem(Register::Rax, src));
        instructions.push(Instruction::MovMemReg(dst, Register::Rax));
        instructions.push(Instruction::AddRegImm(src, 8));
        instructions.push(Instruction::AddRegImm(dst, 8));
        proof {
            assert((size - (remaining - 8)) / 8 == (size - remaining) / 8 + 1) by (nonlinear_arith)
                requires
                    remaining <= size,
                    remaining % 8 == size % 8,
                    remaining >= 8,
            ;
            assert(instructions@ =~= before + word_copy(src, dst));
        }
        remaining -= 8;
    }
    proof {
        assert((size - remaining) / 8 == size / 8) by (nonlinear_arith)
            requires
                remaining < 8,
                remaining <= size,
                remaining % 8 == size % 8,
        ;
    }
    let ghost words = instructions@;
    let whole = remaining;
    while remaining > 0
        invariant
            remaining <= whole,
            whole == size % 8,
            instructions@ == words + repeated(byte_copy(src, dst), (whole - remaining) as nat),
        decreases remaining,
    {
        let ghost before = instructions@;
        instructions.push(Instruction::MovzxRegMem8(Register::Rax, src));
        instructions.push(Instruction::MovMemReg8(dst, Register::Rax));
        instructions.push(Instruction::AddRegImm(src, 1));
        instructions.push(Instruction::AddRegImm(dst, 1));
        proof {
            assert(instructions@ =~= before + byte_copy(src, dst));
            assert(repeated(byte_copy(src, dst), (whole - (remaining - 1)) as nat)
                == repeated(byte_copy(src, dst), (whole - remaining) as nat) + byte_copy(src, dst));
        }
        remaining -= 1;
    }
    Ok(())
}

/// Compares `rax` with `rcx` and leaves the condition's truth, 0 or 1, in `rax`.
pub fn emit_compare(condition: Condition, instructions: &mut Vec<Instruction>)
    ensures
        final(instructions)@ == old(instructions)@ + seq![
            Instruction::CmpRegReg(Register::Rax, Register::Rcx),
            Instruction::SetCondAl(condition),
            Instruction::MovzxEaxAl,
        ],
{
    instructions.push(Instruction::CmpRegReg(Register::Rax, Register::Rcx));
    instructions.push(Instruction::SetCondAl(condition));
    instructions.push(Instruction::MovzxEaxAl);
    assert(instructions@ =~= old(instructions)@ + seq![
        Instruction::CmpRegReg(Register::Rax, Register::Rcx),
        Instruction::SetCondAl(condition),
        Instruction::MovzxEaxAl,
    ]);
}

/// Returns zero from a runtime routine and releases its frame.
pub fn emit_runtime_return(target: Target, frame: u32, instructions: &mut Vec<Instruction>)
    ensures
        final(instructions)@ == old(instructions)@ + seq![
            Instruction::MovRegImm64(Register::Rax, 0),
            Instruction::AddRsp(frame),
            Instruction::Ret,
        ],
{
    instructions.push(Instruction::MovRegImm64(Register::Rax, 0));
    instructions.push(Instruction::AddRsp(frame));
    instructions.push(Instruction::Ret);
    assert(instructions@ =~= old(instructions)@ + seq![
        Instruction::MovRegImm64(Register::Rax, 0),
        Instruction::AddRsp(frame),
        Instruction::Ret,
    ]);
}

/// A call through an import slot.
pub open spec fn call_import(slot: Seq<char>, i: Instruction) -> bool {
    i matches Instruction::CallImport(label) && label@ == slot
}

fn import_call(slot: &str) -> (i: Instruction)
    ensures
        call_import(slot@, i),
{
    Instruction::CallImport(owned(slot))
}

/// Writes `length` bytes from `pointer` to standard output: the `write` system call on
/// Linux; `GetStdHandle(-11)` and `WriteFile` on Windows.
pub open spec fn write_stdout_ok(target: Target, pointer: Register, length: Register, s: Seq<Instruction>) -> bool {
    match target.os {
        OperatingSystem::Linux => s == seq![
            Instruction::MovRegReg(Register::Rsi, pointer),
            Instruction::MovRegReg(Register::Rdx, length),
            Instruction::MovRegImm64(Register::Rdi, 1),
            Instruction::MovRegImm64(Register::Rax, 1),
            Instruction::Syscall,
        ],
        OperatingSystem::Windows => {
            &&& s.len() == 9
            &&& s[0] == Instruction::MovRegImm64(Register::Rcx, -11i64)
            &&& call_import(WIN_IMPORT_GET_STD_HANDLE@, s[1])
            &&& s[2] == Instruction::MovRegReg(Register::Rcx, Register::Rax)
            &&& s[3] == Instruction::MovRegReg(Register::Rdx, pointer)
            &&& s[4] == Instruction::MovRegReg(Register::R8, length)
            &&& s[5] == Instruction::LeaRegRspOffset(Register::R9, written_offset_of(target))
            &&& s[6] == Instruction::MovRegImm64(Register::Rax, 0)
            &&& s[7] == Instruction::MovStackReg(windows_arg5_offset_of(target), Register::Rax)
            &&& call_import(WIN_IMPORT_WRITE_FILE@, s[8])
        },
    }
}

pub fn emit_write_stdout(target: Target, pointer: Register, length: Register, state: &mut LoweringState, instructions: &mut Vec<Instruction>)
    ensures
        final(instructions)@.len() >= old(instructions)@.len(),
        final(instructions)@.take(old(instructions)@.len() as int) == old(instructions)@,
        write_stdout_ok(target, pointer, length, final(instructions)@.skip(old(instructions)@.len() as int)),
        final(state).items() == old(state).items(),
        final(state).next_label() == old(state).next_label(),
        final(state).uses_imports() == (old(state).uses_imports() || target.os == OperatingSystem::Windows),
{
    let ghost start = instructions@;
    match target.os {
        OperatingSystem::Linux => {
            instructions.push(Instruction::MovRegReg(Register::Rsi, pointer));
            instructions.push(Instruction::MovRegReg(Register::Rdx, length));
            instructions.push(Instruction::MovRegImm64(Register::Rdi, 1));
            instructions.push(Instruction::MovRegImm64(Register::Rax, 1));
            instructions.push(Instruction::Syscall);
        },
        OperatingSystem::Windows => {
            state.use_windows_imports();
            instructions.push(Instruction::MovRegImm64(Register::Rcx, -11));
            instructions.push(import_call(WIN_IMPORT_GET_STD_HANDLE));
            instructions.push(Instruction::MovRegReg(Register::Rcx, Register::Rax));
            instructions.push(Instruction::MovRegReg(Register::Rdx, pointer));
            instructions.push(Instruction::MovRegReg(Register::R8, length));
            instructions.push(Instruction::LeaRegRspOffset(Register::R9, runtime_written_offset(target)));
            instructions.push(Instruction::MovRegImm64(Register::Rax, 0));
            instructions.push(Instruction::MovStackReg(runtime_windows_arg5_offset(target), Register::Rax));
            instructions.push(import_call(WIN_IMPORT_WRITE_FILE));
        },
    }
    proof {
        let added = instructions@.skip(start.len() as int);
        assert(instructions@.take(start.len() as int) =~= start);
        assert(write_stdout_ok(target, pointer, length, added)) by {
            if target.os == OperatingSystem::Linux {
                assert(added =~= seq![
                    Instruction::MovRegReg(Register::Rsi, pointer),
                    Instruction::MovRegReg(Register::Rdx, length),
                    Instruction::MovRegImm64(Register::Rdi, 1),
                    Instruction::MovRegImm64(Register::Rax, 1),
                    Instruction::Syscall,
                ]);
            }
        }
    }
}

/// Reads one byte from standard input into the input buffer, with the count of bytes
/// read in `rax`: the `read` system call on Linux; `GetStdHandle(-10)` and `ReadFile` on
/// Windows. `r10` points at the buffer either way.
pub open spec fn read_stdin_ok(target: Target, s: Seq<Instruction>) -> bool {
    match target.os {
        OperatingSystem::Linux => s == seq![
            Instruction::LeaRegRspOffset(Register::R10, input_buffer_offset_of(target)),
            Instruction::LeaRegRspOffset(Register::Rsi, input_buffer_offset_of(target)),
            Instruction::MovRegImm64(Register::Rdx, 1),
            Instruction::MovRegImm64(Register::Rdi, 0),
            Instruction::MovRegImm64(Register::Rax, 0),
            Instruction::Syscall,
        ],
        OperatingSystem::Windows => {
            &&& s.len() == 11
            &&& s[0] == Instruction::MovRegImm64(Register::Rcx, -10i64)
            &&& call_import(WIN_IMPORT_GET_STD_HANDLE@, s[1])
            &&& s[2] == Instruction::MovRegReg(Register::Rcx, Register::Rax)
            &&& s[3] == Instruction::LeaRegRspOffset(Register::R10, input_buffer_offset_of(target))
            &&& s[4] == Instruction::LeaRegRspOffset(Register::Rdx, input_buffer_offset_of(target))
            &&& s[5] == Instruction::MovRegImm64(Register::R8, 1)
            &&& s[6] == Instruction::LeaRegRspOffset(Register::R9, written_offset_of(target))
            &&& s[7] == Instruction::MovRegImm64(Register::Rax, 0)
            &&& s[8] == Instruction::MovStackReg(windows_arg5_offset_of(target), Register::Rax)
            &&& call_import(WIN_IMPORT_READ_FILE@, s[9])
            &&& s[10] == Instruction::MovRegStack(Register::Rax, written_offset_of(target))
        },
    }
}

pub fn emit_read_stdin_byte(target: Target, state: &mut LoweringState, instructions: &mut Vec<Instruction>)
    ensures
        final(instructions)@.len() >= old(instructions)@.len(),
        final(instructions)@.take(old(instructions)@.len() as int) == old(instructions)@,
        read_stdin_ok(target, final(instructions)@.skip(old(instructions)@.len() as int)),
        final(state).items() == old(state).items(),
        final(state).next_label() == old(state).next_label(),
        final(state).uses_imports() == (old(state).uses_imports() || target.os == OperatingSystem::Windows),
{
    let ghost start = instructions@;
    match target.os {
        OperatingSystem::Linux => {
            instructions.push(Instruction::LeaRegRspOffset(Register::R10, runtime_input_buffer_offset(target)));
            instructions.push(Instruction::LeaRegRspOffset(Register::Rsi, runtime_input_buffer_offset(target)));
            instructions.push(Instruction::MovRegImm64(Register::Rdx, 1));
            instructions.push(Instruction::MovRegImm64(Register::Rdi, 0));
            instructions.push(Instruction::MovRegImm64(Register::Rax, 0));
            instructions.push(Instruction::Syscall);
        },
        OperatingSystem::Windows => {
            state.use_windows_imports();
            instructions.push(Instruction::MovRegImm64(Register::Rcx, -10));
            instructions.push(import_call(WIN_IMPORT_GET_STD_HANDLE));
            instructions.push(Instruction::MovRegReg(Register::Rcx, Register::Rax));
            instructions.push(Instruction::LeaRegRspOffset(Register::R10, runtime_input_buffer_offset(target)));
            instructions.push(Instruction::LeaRegRspOffset(Register::Rdx, runtime_input_buffer_offset(target)));
            instructions.push(Instruction::MovRegImm64(Register::R8, 1));
            instructions.push(Instruction::LeaRegRspOffset(Register::R9, runtime_written_offset(target)));
            instructions.push(Instruction::MovRegImm64(Register::Rax, 0));
            instructions.push(Instruction::MovStackReg(runtime_windows_arg5_offset(target), Register::Rax));
            instructions.push(import_call(WIN_IMPORT_READ_FILE));
            instructions.push(Instruction::MovRegStack(Register::Rax, runtime_written_offset(target)));
        },
    }
    proof {
        let added = instructions@.skip(start.len() as int);
        assert(instructions@.take(start.len() as int) =~= start);
        assert(read_stdin_ok(target, added)) by {
            if target.os == OperatingSystem::Linux {
                assert(added =~= seq![
                    Instruction::LeaRegRspOffset(Register::R10, input_buffer_offset_of(target)),
                    Instruction::LeaRegRspOffset(Register::Rsi, input_buffer_offset_of(target)),
                    Instruction::MovRegImm64(Register::Rdx, 1),
                    Instruction::MovRegImm64(Register::Rdi, 0),
                    Instruction::MovRegImm64(Register::Rax, 0),
                    Instruction::Syscall,
                ]);
            }
        }
    }
}

/// The message for an integer constant that is not a decimal `i64`.
pub open spec fn invalid_integer_message(text: Seq<char>) -> Seq<char> {
    "invalid integer literal `"@ + text + "` in MIR"@
}


/// Whether `label` names a data item holding `bytes`.
pub open spec fn holds_data(items: Seq<(Seq<char>, Seq<u8>)>, label: Seq<char>, bytes: Seq<u8>) -> bool {
    exists|i: int| 0 <= i < items.len() && items[i] == (label, bytes)
}

/// Loads a constant into `destination`: its value as an immediate, or for a string the
/// address of its interned bytes with a terminating zero.
pub fn load_constant(value: &ConstantValue, destination: Register, state: &mut LoweringState, instructions: &mut Vec<Instruction>)
    -> (r: Result<(), CodegenError>)
    requires
        old(state).items().len() < u64::MAX,
    ensures
        final(state).next_label() == old(state).next_label(),
        final(state).uses_imports() == old(state).uses_imports(),
        !(value is String) ==> final(state).items() == old(state).items(),
        match value {
            ConstantValue::Unit => r is Ok && final(instructions)@ == old(instructions)@.push(Instruction::MovRegImm64(destination, 0)),
            ConstantValue::Bool(b) => r is Ok
                && final(instructions)@ == old(instructions)@.push(Instruction::MovRegImm64(destination, if *b { 1 } else { 0 })),
            ConstantValue::Integer(text) => match i64_value(text@) {
                Some(n) => r is Ok && final(instructions)@ == old(instructions)@.push(Instruction::MovRegImm64(destination, n)),
                None => r is Err && r->Err_0.message@ == invalid_integer_message(text@) && final(instructions)@ == old(instructions)@,
            },
            ConstantValue::Float(_) => r is Err && final(instructions)@ == old(instructions)@
                && r->Err_0.message@ == "native x86-64 codegen does not yet support floating-point constants"@,
            ConstantValue::String(text) => {
                &&& r is Ok
                &&& final(instructions)@.len() == old(instructions)@.len() + 1
                &&& final(instructions)@.drop_last() == old(instructions)@
                &&& final(instructions)@.last() matches Instruction::MovRegDataAddr(reg, label)
                &&& reg == destination
                &&& holds_data(final(state).items(), label@, encode_utf8(text@).push(0u8))
                &&& final(state).items().len() >= old(state).items().len()
                &&& final(state).items().take(old(state).items().len() as int) == old(state).items()
            },
            ConstantValue::Function(name) => r is Err && final(instructions)@ == old(instructions)@
                && r->Err_0.message@ == "native x86-64 codegen cannot materialize function value `"@ + name@ + "` yet"@,
        },
{
    let immediate: i64 = match value {
        ConstantValue::Unit => 0,
        ConstantValue::Integer(text) => match parse_i64(text.as_str()) {
            Some(n) => n,
            None => {
                let mut message = chars_of("invalid integer literal `");
                push_str_chars(&mut message, text.as_str());
                push_str_chars(&mut message, "` in MIR");
                return Err(CodegenError::from_chars(&message));
            },
        },
        ConstantValue::Bool(b) => if *b { 1 } else { 0 },
        ConstantValue::Float(_) => {
            return Err(CodegenError::new("native x86-64 codegen does not yet support floating-point constants"));
        },
        ConstantValue::String(text) => {
            let ghost before = state.items();
            let label = state.intern_c_string(text.as_str());
            proof {
                if exists|i: int| 0 <= i < before.len() && before[i].1 == encode_utf8(text@).push(0u8) {
                    let i = choose|i: int| 0 <= i < before.len() && before[i].1 == encode_utf8(text@).push(0u8)
                        && label@ == before[i].0;
                    assert(state.items()[i] == (label@, encode_utf8(text@).push(0u8)));
                    assert(state.items().take(before.len() as int) =~= before);
                } else {
                    assert(state.items()[before.len() as int] == (label@, encode_utf8(text@).push(0u8)));
                    assert(state.items().take(before.len() as int) =~= before);
                }
            }
            instructions.push(Instruction::MovRegDataAddr(destination, label));
            return Ok(());
        },
        ConstantValue::Function(name) => {
            let mut message = chars_of("native x86-64 codegen cannot materialize function value `");
            push_str_chars(&mut message, name.as_str());
            push_str_chars(&mut message, "` yet");
            return Err(CodegenError::from_chars(&message));
        },
    };
    instructions.push(Instruction::MovRegImm64(destination, immediate));
    Ok(())
}

/// The symbol with every character other than an ASCII letter, digit or `_` replaced by `_`.
pub open spec fn sanitized(name: Seq<char>) -> Seq<char> {
    name.map_values(|c: char| if ('a' <= c <= 'z') || ('A' <= c <= 'Z') || ('0' <= c <= '9') || c == '_' { c } else { '_' })
}

pub fn sanitize_symbol(name: &str) -> (s: String)
    ensures
        s@ == sanitized(name@),
{
    let chars = chars_of(name);
    let mut out: Vec<char> = Vec::new();
    let mut i: usize = 0;
    while i < chars.len()
        invariant
            chars@ == name@,
            i <= chars@.len(),
            out@ == sanitized(name@.take(i as int)),
        decreases chars@.len() - i,
    {
        let c = chars[i];
        let keep = ('a' <= c && c <= 'z') || ('A' <= c && c <= 'Z') || ('0' <= c && c <= '9') || c == '_';
        out.push(if keep { c } else { '_' });
        assert(sanitized(name@.take(i + 1)) =~= sanitized(name@.take(i as int)).push(if keep { c } else { '_' }));
        i += 1;
    }
    assert(name@.take(chars@.len() as int) =~= name@);
    string_from_chars(&out)
}

} // verus!
