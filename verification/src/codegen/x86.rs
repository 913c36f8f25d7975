//! x86-64 registers, conditions and the instructions the back end emits, with their
//! encoded lengths and their Intel-syntax rendering.

use vstd::prelude::*;
use crate::text::{decimal, decimal_chars, push_str_chars, signed_decimal, signed_decimal_chars, string_from_chars};

verus! {

#[derive(Debug, Clone, Copy, PartialEq, Eq, Structural)]
pub enum Register {
    Rax,
    Rcx,
    Rdx,
    Rdi,
    Rsi,
    R8,
    R9,
    R10,
    R11,
}

/// The register's number in the instruction encoding.
pub open spec fn reg_code(r: Register) -> u8 {
    match r {
        Register::Rax => 0,
        Register::Rcx => 1,
        Register::Rdx => 2,
        Register::Rdi => 7,
        Register::Rsi => 6,
        Register::R8 => 8,
        Register::R9 => 9,
        Register::R10 => 10,
        Register::R11 => 11,
    }
}

/// The low three bits of the register's number.
pub open spec fn low3_of(r: Register) -> u8 {
    (reg_code(r) % 8) as u8
}

/// The REX.R bit for the register in the ModRM `reg` field.
pub open spec fn rex_r_of(r: Register) -> u8 {
    if reg_code(r) >= 8 { 4 } else { 0 }
}

/// The REX.X bit for the register as a SIB index.
pub open spec fn rex_x_of(r: Register) -> u8 {
    if reg_code(r) >= 8 { 2 } else { 0 }
}

/// The REX.B bit for the register in the ModRM `rm` field or the SIB base.
pub open spec fn rex_b_of(r: Register) -> u8 {
    if reg_code(r) >= 8 { 1 } else { 0 }
}

pub open spec fn reg_name(r: Register) -> Seq<char> {
    match r {
        Register::Rax => "rax"@,
        Register::Rcx => "rcx"@,
        Register::Rdx => "rdx"@,
        Register::Rdi => "rdi"@,
        Register::Rsi => "rsi"@,
        Register::R8 => "r8"@,
        Register::R9 => "r9"@,
        Register::R10 => "r10"@,
        Register::R11 => "r11"@,
    }
}

/// The name of the register's low byte.
pub open spec fn low8_reg_name(r: Register) -> Seq<char> {
    match r {
        Register::Rax => "al"@,
        Register::Rcx => "cl"@,
        Register::Rdx => "dl"@,
        Register::Rdi => "dil"@,
        Register::Rsi => "sil"@,
        Register::R8 => "r8b"@,
        Register::R9 => "r9b"@,
        Register::R10 => "r10b"@,
        Register::R11 => "r11b"@,
    }
}

/// The name of the register's low 32 bits.
pub open spec fn reg32_reg_name(r: Register) -> Seq<char> {
    match r {
        Register::Rax => "eax"@,
        Register::Rcx => "ecx"@,
        Register::Rdx => "edx"@,
        Register::Rdi => "edi"@,
        Register::Rsi => "esi"@,
        Register::R8 => "r8d"@,
        Register::R9 => "r9d"@,
        Register::R10 => "r10d"@,
        Register::R11 => "r11d"@,
    }
}

/// The low three bits and the fourth bit of a register number.
proof fn lemma_register_bits(e: u8)
    requires
        e < 16,
    ensures
        e & 7 == e % 8,
        ((e & 8) != 0) == (e >= 8),
{
    assert(e & 7 == e % 8 && ((e & 8) != 0) == (e >= 8)) by (bit_vector)
        requires
            e < 16,
    ;
}

impl Register {
    pub fn encoding(self) -> (b: u8)
        ensures
            b == reg_code(self),
    {
        match self {
            Register::Rax => 0,
            Register::Rcx => 1,
            Register::Rdx => 2,
            Register::Rdi => 7,
            Register::Rsi => 6,
            Register::R8 => 8,
            Register::R9 => 9,
            Register::R10 => 10,
            Register::R11 => 11,
        }
    }

    pub fn low3(self) -> (b: u8)
        ensures
            b == low3_of(self),
            b < 8,
    {
        let e = self.encoding();
        proof {
            lemma_register_bits(e);
        }
        e & 0b111
    }

    fn extended(self) -> (r: bool)
        ensures
            r == (reg_code(self) >= 8),
    {
        let e = self.encoding();
        proof {
            lemma_register_bits(e);
        }
        (e & 0b1000) != 0
    }

    pub fn rex_r(self) -> (b: u8)
        ensures
            b == rex_r_of(self),
    {
        if self.extended() { 4 } else { 0 }
    }

    pub fn rex_x(self) -> (b: u8)
        ensures
            b == rex_x_of(self),
    {
        if self.extended() { 2 } else { 0 }
    }

    pub fn rex_b(self) -> (b: u8)
        ensures
            b == rex_b_of(self),
    {
        if self.extended() { 1 } else { 0 }
    }

    pub fn name(self) -> (s: &'static str)
        ensures
            s@ == reg_name(self),
    {
        match self {
            Register::Rax => "rax",
            Register::Rcx => "rcx",
            Register::Rdx => "rdx",
            Register::Rdi => "rdi",
            Register::Rsi => "rsi",
            Register::R8 => "r8",
            Register::R9 => "r9",
            Register::R10 => "r10",
            Register::R11 => "r11",
        }
    }
}

pub fn low8_name(reg: Register) -> (s: &'static str)
    ensures
        s@ == low8_reg_name(reg),
{
    match reg {
        Register::Rax => "al",
        Register::Rcx => "cl",
        Register::Rdx => "dl",
        Register::Rdi => "dil",
        Register::Rsi => "sil",
        Register::R8 => "r8b",
        Register::R9 => "r9b",
        Register::R10 => "r10b",
        Register::R11 => "r11b",
    }
}

pub fn reg32_name(reg: Register) -> (s: &'static str)
    ensures
        s@ == reg32_reg_name(reg),
{
    match reg {
        Register::Rax => "eax",
        Register::Rcx => "ecx",
        Register::Rdx => "edx",
        Register::Rdi => "edi",
        Register::Rsi => "esi",
        Register::R8 => "r8d",
        Register::R9 => "r9d",
        Register::R10 => "r10d",
        Register::R11 => "r11d",
    }
}

#[derive(Debug, Clone, Copy, PartialEq, Eq, Structural)]
pub enum Condition {
    Equal,
    NotEqual,
    Less,
    LessEqual,
    Greater,
    GreaterEqual,
}

/// The second opcode byte of `setcc` for the condition.
pub open spec fn setcc_code(c: Condition) -> u8 {
    match c {
        Condition::Equal => 0x94,
        Condition::NotEqual => 0x95,
        Condition::Less => 0x9C,
        Condition::LessEqual => 0x9E,
        Condition::Greater => 0x9F,
        Condition::GreaterEqual => 0x9D,
    }
}

/// The second opcode byte of the near conditional jump for the condition.
pub open spec fn jcc_code(c: Condition) -> u8 {
    match c {
        Condition::Equal => 0x84,
        Condition::NotEqual => 0x85,
        Condition::Less => 0x8C,
        Condition::LessEqual => 0x8E,
        Condition::Greater => 0x8F,
        Condition::GreaterEqual => 0x8D,
    }
}

pub open spec fn jump_mnemonic(c: Condition) -> Seq<char> {
    match c {
        Condition::Equal => "je"@,
        Condition::NotEqual => "jne"@,
        Condition::Less => "jl"@,
        Condition::LessEqual => "jle"@,
        Condition::Greater => "jg"@,
        Condition::GreaterEqual => "jge"@,
    }
}

pub open spec fn set_mnemonic_of(c: Condition) -> Seq<char> {
    match c {
        Condition::Equal => "sete"@,
        Condition::NotEqual => "setne"@,
        Condition::Less => "setl"@,
        Condition::LessEqual => "setle"@,
        Condition::Greater => "setg"@,
        Condition::GreaterEqual => "setge"@,
    }
}

/// The number the Intel manual gives the 64-bit general register of each name.
pub open spec fn manual_register_number(name: Seq<char>) -> Option<int> {
    if name == "rax"@ {
        Some(0)
    } else if name == "rcx"@ {
        Some(1)
    } else if name == "rdx"@ {
        Some(2)
    } else if name == "rbx"@ {
        Some(3)
    } else if name == "rsp"@ {
        Some(4)
    } else if name == "rbp"@ {
        Some(5)
    } else if name == "rsi"@ {
        Some(6)
    } else if name == "rdi"@ {
        Some(7)
    } else if name == "r8"@ {
        Some(8)
    } else if name == "r9"@ {
        Some(9)
    } else if name == "r10"@ {
        Some(10)
    } else if name == "r11"@ {
        Some(11)
    } else {
        None
    }
}

/// A register is encoded by the number the manual gives the register its name names, so
/// the assembly text and the machine code speak of the same register.
pub proof fn lemma_register_numbers(r: Register)
    ensures
        manual_register_number(reg_name(r)) == Some(reg_code(r) as int),
{
    reveal_strlit("rax");
    reveal_strlit("rcx");
    reveal_strlit("rdx");
    reveal_strlit("rbx");
    reveal_strlit("rsp");
    reveal_strlit("rbp");
    reveal_strlit("rsi");
    reveal_strlit("rdi");
    reveal_strlit("r8");
    reveal_strlit("r9");
    reveal_strlit("r10");
    reveal_strlit("r11");
    assert("rax"@ != "rcx"@ && "rax"@ != "rdx"@ && "rax"@ != "rbx"@ && "rax"@ != "rsp"@ && "rax"@ != "rbp"@ && "rax"@ != "rsi"@
        && "rax"@ != "rdi"@ && "rax"@ != "r10"@ && "rax"@ != "r11"@) by {
        assert("rax"@[1] != "rcx"@[1]);
        assert("rax"@[1] != "rdx"@[1]);
        assert("rax"@[1] != "rbx"@[1]);
        assert("rax"@[1] != "rsp"@[1]);
        assert("rax"@[1] != "rbp"@[1]);
        assert("rax"@[1] != "rsi"@[1]);
        assert("rax"@[1] != "rdi"@[1]);
        assert("rax"@[1] != "r10"@[1]);
        assert("rax"@[1] != "r11"@[1]);
    }
    assert("rcx"@ != "rdx"@ && "rcx"@ != "rbx"@ && "rcx"@ != "rsp"@ && "rcx"@ != "rbp"@ && "rcx"@ != "rsi"@ && "rcx"@ != "rdi"@
        && "rcx"@ != "r10"@ && "rcx"@ != "r11"@) by {
        assert("rcx"@[1] != "rdx"@[1]);
        assert("rcx"@[1] != "rbx"@[1]);
        assert("rcx"@[1] != "rsp"@[1]);
        assert("rcx"@[1] != "rbp"@[1]);
        assert("rcx"@[1] != "rsi"@[1]);
        assert("rcx"@[1] != "rdi"@[1]);
        assert("rcx"@[1] != "r10"@[1]);
        assert("rcx"@[1] != "r11"@[1]);
    }
    assert("rdx"@ != "rbx"@ && "rdx"@ != "rsp"@ && "rdx"@ != "rbp"@ && "rdx"@ != "rsi"@ && "rdx"@ != "rdi"@ && "rdx"@ != "r10"@
        && "rdx"@ != "r11"@) by {
        assert("rdx"@[1] != "rbx"@[1]);
        assert("rdx"@[1] != "rsp"@[1]);
        assert("rdx"@[1] != "rbp"@[1]);
        assert("rdx"@[1] != "rsi"@[1]);
        assert("rdx"@[2] != "rdi"@[2]);
        assert("rdx"@[1] != "r10"@[1]);
        assert("rdx"@[1] != "r11"@[1]);
    }
    assert("rsi"@ != "rbx"@ && "rsi"@ != "rsp"@ && "rsi"@ != "rbp"@ && "rdi"@ != "rbx"@ && "rdi"@ != "rsp"@ && "rdi"@ != "rbp"@
        && "rdi"@ != "rsi"@) by {
        assert("rsi"@[1] != "rbx"@[1]);
        assert("rsi"@[2] != "rsp"@[2]);
        assert("rsi"@[1] != "rbp"@[1]);
        assert("rdi"@[1] != "rbx"@[1]);
        assert("rdi"@[1] != "rsp"@[1]);
        assert("rdi"@[1] != "rbp"@[1]);
        assert("rdi"@[1] != "rsi"@[1]);
    }
    assert("r10"@ != "rbx"@ && "r10"@ != "rsp"@ && "r10"@ != "rbp"@ && "r10"@ != "rsi"@ && "r10"@ != "rdi"@ && "r11"@ != "rbx"@
        && "r11"@ != "rsp"@ && "r11"@ != "rbp"@ && "r11"@ != "rsi"@ && "r11"@ != "rdi"@ && "r11"@ != "r10"@) by {
        assert("r10"@[1] != "rbx"@[1]);
        assert("r10"@[1] != "rsp"@[1]);
        assert("r10"@[1] != "rbp"@[1]);
        assert("r10"@[1] != "rsi"@[1]);
        assert("r10"@[1] != "rdi"@[1]);
        assert("r11"@[1] != "rbx"@[1]);
        assert("r11"@[1] != "rsp"@[1]);
        assert("r11"@[1] != "rbp"@[1]);
        assert("r11"@[1] != "rsi"@[1]);
        assert("r11"@[1] != "rdi"@[1]);
        assert("r11"@[2] != "r10"@[2]);
    }
    assert("r8"@ != "r9"@) by {
        assert("r8"@[1] != "r9"@[1]);
    }
    assert("r8"@.len() == 2 && "r9"@.len() == 2 && "rax"@.len() == 3 && "rcx"@.len() == 3 && "rdx"@.len() == 3 && "rbx"@.len() == 3
        && "rsp"@.len() == 3 && "rbp"@.len() == 3 && "rsi"@.len() == 3 && "rdi"@.len() == 3 && "r10"@.len() == 3 && "r11"@.len() == 3);
}

/// What each condition code of the Intel manual (the low four bits of the `setcc` and
/// `jcc` opcodes) tests after `cmp a, b` on signed values.
pub open spec fn cc_holds(cc: int, a: int, b: int) -> bool {
    if cc == 0x4 {
        a == b
    } else if cc == 0x5 {
        a != b
    } else if cc == 0xC {
        a < b
    } else if cc == 0xD {
        a >= b
    } else if cc == 0xE {
        a <= b
    } else if cc == 0xF {
        a > b
    } else {
        false
    }
}

/// The mnemonic suffix the Intel manual gives each of those condition codes.
pub open spec fn cc_suffix(cc: int) -> Seq<char> {
    if cc == 0x4 {
        "e"@
    } else if cc == 0x5 {
        "ne"@
    } else if cc == 0xC {
        "l"@
    } else if cc == 0xD {
        "ge"@
    } else if cc == 0xE {
        "le"@
    } else if cc == 0xF {
        "g"@
    } else {
        Seq::empty()
    }
}

/// What a condition asks of a signed comparison of `a` with `b`.
pub open spec fn condition_holds(c: Condition, a: int, b: int) -> bool {
    match c {
        Condition::Equal => a == b,
        Condition::NotEqual => a != b,
        Condition::Less => a < b,
        Condition::LessEqual => a <= b,
        Condition::Greater => a > b,
        Condition::GreaterEqual => a >= b,
    }
}

/// The `setcc` and `jcc` opcodes of a condition carry the condition code that tests that
/// condition, and their mnemonics carry that code's suffix: `setl` is `0F 9C` and sets the
/// byte exactly when `a < b`, `jle` is `0F 8E` and jumps exactly when `a <= b`.
pub proof fn lemma_condition_codes(c: Condition, a: int, b: int)
    ensures
        0x90 <= setcc_code(c) < 0xA0,
        0x80 <= jcc_code(c) < 0x90,
        cc_holds(setcc_code(c) - 0x90, a, b) == condition_holds(c, a, b),
        cc_holds(jcc_code(c) - 0x80, a, b) == condition_holds(c, a, b),
        set_mnemonic_of(c) == "set"@ + cc_suffix(setcc_code(c) - 0x90),
        jump_mnemonic(c) == "j"@ + cc_suffix(jcc_code(c) - 0x80),
{
    reveal_strlit("set");
    reveal_strlit("j");
    reveal_strlit("e");
    reveal_strlit("ne");
    reveal_strlit("l");
    reveal_strlit("ge");
    reveal_strlit("le");
    reveal_strlit("g");
    reveal_strlit("sete");
    reveal_strlit("setne");
    reveal_strlit("setl");
    reveal_strlit("setle");
    reveal_strlit("setg");
    reveal_strlit("setge");
    reveal_strlit("je");
    reveal_strlit("jne");
    reveal_strlit("jl");
    reveal_strlit("jle");
    reveal_strlit("jg");
    reveal_strlit("jge");
    assert(set_mnemonic_of(c) =~= "set"@ + cc_suffix(setcc_code(c) - 0x90));
    assert(jump_mnemonic(c) =~= "j"@ + cc_suffix(jcc_code(c) - 0x80));
}

impl Condition {
    pub fn setcc_opcode(self) -> (b: u8)
        ensures
            b == setcc_code(self),
    {
        match self {
            Condition::Equal => 0x94,
            Condition::NotEqual => 0x95,
            Condition::Less => 0x9C,
            Condition::LessEqual => 0x9E,
            Condition::Greater => 0x9F,
            Condition::GreaterEqual => 0x9D,
        }
    }

    pub fn jcc_opcode(self) -> (b: u8)
        ensures
            b == jcc_code(self),
    {
        match self {
            Condition::Equal => 0x84,
            Condition::NotEqual => 0x85,
            Condition::Less => 0x8C,
            Condition::LessEqual => 0x8E,
            Condition::Greater => 0x8F,
            Condition::GreaterEqual => 0x8D,
        }
    }

    pub fn mnemonic(self) -> (s: &'static str)
        ensures
            s@ == jump_mnemonic(self),
    {
        match self {
            Condition::Equal => "je",
            Condition::NotEqual => "jne",
            Condition::Less => "jl",
            Condition::LessEqual => "jle",
            Condition::Greater => "jg",
            Condition::GreaterEqual => "jge",
        }
    }

    pub fn set_mnemonic(self) -> (s: &'static str)
        ensures
            s@ == set_mnemonic_of(self),
    {
        match self {
            Condition::Equal => "sete",
            Condition::NotEqual => "setne",
            Condition::Less => "setl",
            Condition::LessEqual => "setle",
            Condition::Greater => "setg",
            Condition::GreaterEqual => "setge",
        }
    }
}

#[derive(Debug, Clone)]
pub enum Instruction {
    Label(String),
    SubRsp(u32),
    AddRsp(u32),
    MovRegImm64(Register, i64),
    MovRegDataAddr(Register, String),
    MovRegStack(Register, i32),
    MovStackReg(i32, Register),
    LeaRegRspOffset(Register, i32),
    LeaRegBaseIndexScale(Register, Register, Register, u8),
    MovRegReg(Register, Register),
    MovRegMem(Register, Register),
    MovMemReg(Register, Register),
    AddRegReg(Register, Register),
    SubRegReg(Register, Register),
    AddRegImm(Register, i32),
    SubRegImm(Register, i32),
    AndRegReg(Register, Register),
    OrRegReg(Register, Register),
    IMulRegReg(Register, Register),
    Cqo,
    IDivReg(Register),
    NegReg(Register),
    MovMemReg8(Register, Register),
    MovzxRegMem8(Register, Register),
    CmpRegImm(Register, i32),
    CmpRegReg(Register, Register),
    SetCondAl(Condition),
    MovzxEaxAl,
    Call(String),
    CallImport(String),
    Jump(String),
    JumpIf(Condition, String),
    Syscall,
    Ret,
    Ud2,
}

/// Whether a value fits in a signed byte.
pub open spec fn fits_i8(v: int) -> bool {
    -128 <= v <= 127
}

/// The length of a stack-relative memory instruction: REX, opcode, ModRM, SIB and an
/// 8- or 32-bit displacement.
pub open spec fn stack_mem_size(offset: i32) -> nat {
    if fits_i8(offset as int) { 5 } else { 8 }
}

/// The length of an instruction with an 8- or 32-bit immediate.
pub open spec fn imm_size(v: int) -> nat {
    if fits_i8(v) { 4 } else { 7 }
}

/// The number of bytes the instruction encodes to.
pub open spec fn ins_len(i: Instruction) -> nat {
    match i {
        Instruction::Label(_) => 0,
        Instruction::SubRsp(v) => imm_size(v as int),
        Instruction::AddRsp(v) => imm_size(v as int),
        Instruction::MovRegImm64(_, _) => 10,
        Instruction::MovRegDataAddr(_, _) => 10,
        Instruction::MovRegStack(_, offset) => stack_mem_size(offset),
        Instruction::MovStackReg(offset, _) => stack_mem_size(offset),
        Instruction::LeaRegRspOffset(_, offset) => stack_mem_size(offset),
        Instruction::LeaRegBaseIndexScale(_, _, _, _) => 4,
        Instruction::MovRegReg(_, _) => 3,
        Instruction::MovRegMem(_, _) => 3,
        Instruction::MovMemReg(_, _) => 3,
        Instruction::AddRegReg(_, _) => 3,
        Instruction::SubRegReg(_, _) => 3,
        Instruction::AndRegReg(_, _) => 3,
        Instruction::OrRegReg(_, _) => 3,
        Instruction::CmpRegReg(_, _) => 3,
        Instruction::AddRegImm(_, v) => imm_size(v as int),
        Instruction::SubRegImm(_, v) => imm_size(v as int),
        Instruction::IMulRegReg(_, _) => 4,
        Instruction::Cqo => 2,
        Instruction::IDivReg(_) => 3,
        Instruction::NegReg(_) => 3,
        Instruction::MovMemReg8(_, _) => 3,
        Instruction::MovzxRegMem8(_, _) => 4,
        Instruction::CmpRegImm(_, v) => imm_size(v as int),
        Instruction::SetCondAl(_) => 3,
        Instruction::MovzxEaxAl => 3,
        Instruction::Call(_) => 5,
        Instruction::CallImport(_) => 6,
        Instruction::Jump(_) => 5,
        Instruction::JumpIf(_, _) => 6,
        Instruction::Syscall => 2,
        Instruction::Ud2 => 2,
        Instruction::Ret => 1,
    }
}

pub fn fits_i8_i32(v: i32) -> (r: bool)
    ensures
        r == fits_i8(v as int),
{
    -128 <= v && v <= 127
}

pub fn fits_i8_u32(v: u32) -> (r: bool)
    ensures
        r == fits_i8(v as int),
{
    v <= 127
}

pub fn stack_mem_len(offset: i32) -> (n: usize)
    ensures
        n == stack_mem_size(offset),
{
    if fits_i8_i32(offset) { 5 } else { 8 }
}

/// Register to register: `mnemonic dst, src`.
pub open spec fn two_regs(mnemonic: Seq<char>, a: Register, b: Register) -> Seq<char> {
    mnemonic + reg_name(a) + ", "@ + reg_name(b)
}

/// The instruction in Intel syntax.
pub open spec fn render_text(i: Instruction) -> Seq<char> {
    match i {
        Instruction::Label(name) => name@ + ":"@,
        Instruction::SubRsp(v) => "sub rsp, "@ + decimal(v as nat),
        Instruction::AddRsp(v) => "add rsp, "@ + decimal(v as nat),
        Instruction::MovRegImm64(r, v) => "mov "@ + reg_name(r) + ", "@ + signed_decimal(v as int),
        Instruction::MovRegDataAddr(r, label) => "mov "@ + reg_name(r) + ", OFFSET FLAT:"@ + label@,
        Instruction::MovRegStack(r, offset) =>
            "mov "@ + reg_name(r) + ", qword ptr [rsp + "@ + signed_decimal(offset as int) + "]"@,
        Instruction::MovStackReg(offset, r) =>
            "mov qword ptr [rsp + "@ + signed_decimal(offset as int) + "], "@ + reg_name(r),
        Instruction::LeaRegRspOffset(r, offset) =>
            "lea "@ + reg_name(r) + ", [rsp + "@ + signed_decimal(offset as int) + "]"@,
        Instruction::LeaRegBaseIndexScale(dst, base, index, scale) =>
            "lea "@ + reg_name(dst) + ", ["@ + reg_name(base) + " + "@ + reg_name(index) + "*"@
                + decimal(scale as nat) + "]"@,
        Instruction::MovRegReg(dst, src) => two_regs("mov "@, dst, src),
        Instruction::MovRegMem(dst, base) => "mov "@ + reg_name(dst) + ", qword ptr ["@ + reg_name(base) + "]"@,
        Instruction::MovMemReg(base, src) => "mov qword ptr ["@ + reg_name(base) + "], "@ + reg_name(src),
        Instruction::AddRegReg(dst, src) => two_regs("add "@, dst, src),
        Instruction::SubRegReg(dst, src) => two_regs("sub "@, dst, src),
        Instruction::AddRegImm(r, v) => "add "@ + reg_name(r) + ", "@ + signed_decimal(v as int),
        Instruction::SubRegImm(r, v) => "sub "@ + reg_name(r) + ", "@ + signed_decimal(v as int),
        Instruction::AndRegReg(dst, src) => two_regs("and "@, dst, src),
        Instruction::OrRegReg(dst, src) => two_regs("or "@, dst, src),
        Instruction::IMulRegReg(dst, src) => two_regs("imul "@, dst, src),
        Instruction::Cqo => "cqo"@,
        Instruction::IDivReg(r) => "idiv "@ + reg_name(r),
        Instruction::NegReg(r) => "neg "@ + reg_name(r),
        Instruction::MovMemReg8(base, src) => "mov byte ptr ["@ + reg_name(base) + "], "@ + low8_reg_name(src),
        Instruction::MovzxRegMem8(dst, base) => "movzx "@ + reg32_reg_name(dst) + ", byte ptr ["@ + reg_name(base) + "]"@,
        Instruction::CmpRegImm(r, v) => "cmp "@ + reg_name(r) + ", "@ + signed_decimal(v as int),
        Instruction::CmpRegReg(left, right) => two_regs("cmp "@, left, right),
        Instruction::SetCondAl(c) => set_mnemonic_of(c) + " al"@,
        Instruction::MovzxEaxAl => "movzx eax, al"@,
        Instruction::Call(label) => "call "@ + label@,
        Instruction::CallImport(label) => "call qword ptr [rip + "@ + label@ + "]"@,
        Instruction::Jump(label) => "jmp "@ + label@,
        Instruction::JumpIf(c, label) => jump_mnemonic(c) + " "@ + label@,
        Instruction::Syscall => "syscall"@,
        Instruction::Ret => "ret"@,
        Instruction::Ud2 => "ud2"@,
    }
}

fn push_two_regs(out: &mut Vec<char>, mnemonic: &str, a: Register, b: Register)
    ensures
        final(out)@ == old(out)@ + two_regs(mnemonic@, a, b),
{
    push_str_chars(out, mnemonic);
    push_str_chars(out, a.name());
    push_str_chars(out, ", ");
    push_str_chars(out, b.name());
}

fn push_signed(out: &mut Vec<char>, v: i64)
    ensures
        final(out)@ == old(out)@ + signed_decimal(v as int),
{
    let mut digits = signed_decimal_chars(v);
    out.append(&mut digits);
}

fn push_unsigned(out: &mut Vec<char>, v: u64)
    ensures
        final(out)@ == old(out)@ + decimal(v as nat),
{
    let mut digits = decimal_chars(v);
    out.append(&mut digits);
}

impl Instruction {
    pub fn len(&self) -> (n: usize)
        ensures
            n == ins_len(*self),
    {
        match self {
            Instruction::Label(_) => 0,
            Instruction::SubRsp(value) => if fits_i8_u32(*value) { 4 } else { 7 },
            Instruction::AddRsp(value) => if fits_i8_u32(*value) { 4 } else { 7 },
            Instruction::MovRegImm64(_, _) => 10,
            Instruction::MovRegDataAddr(_, _) => 10,
            Instruction::MovRegStack(_, offset) => stack_mem_len(*offset),
            Instruction::MovStackReg(offset, _) => stack_mem_len(*offset),
            Instruction::LeaRegRspOffset(_, offset) => stack_mem_len(*offset),
            Instruction::LeaRegBaseIndexScale(_, _, _, _) => 4,
            Instruction::MovRegReg(_, _) | Instruction::MovRegMem(_, _) | Instruction::MovMemReg(_, _) => 3,
            Instruction::AddRegReg(_, _)
            | Instruction::SubRegReg(_, _)
            | Instruction::AndRegReg(_, _)
            | Instruction::OrRegReg(_, _)
            | Instruction::CmpRegReg(_, _) => 3,
            Instruction::AddRegImm(_, value) => if fits_i8_i32(*value) { 4 } else { 7 },
            Instruction::SubRegImm(_, value) => if fits_i8_i32(*value) { 4 } else { 7 },
            Instruction::IMulRegReg(_, _) => 4,
            Instruction::Cqo => 2,
            Instruction::IDivReg(_) | Instruction::NegReg(_) => 3,
            Instruction::MovMemReg8(_, _) => 3,
            Instruction::MovzxRegMem8(_, _) => 4,
            Instruction::CmpRegImm(_, value) => if fits_i8_i32(*value) { 4 } else { 7 },
            Instruction::SetCondAl(_) => 3,
            Instruction::MovzxEaxAl => 3,
            Instruction::Call(_) => 5,
            Instruction::CallImport(_) => 6,
            Instruction::Jump(_) => 5,
            Instruction::JumpIf(_, _) => 6,
            Instruction::Syscall | Instruction::Ud2 => 2,
            Instruction::Ret => 1,
        }
    }

    /// The instruction in Intel syntax.
    pub fn render(&self) -> (s: String)
        ensures
            s@ == render_text(*self),
    {
        let mut out: Vec<char> = Vec::new();
        match self {
            Instruction::Label(name) => {
                push_str_chars(&mut out, name.as_str());
                push_str_chars(&mut out, ":");
            },
            Instruction::SubRsp(value) => {
                push_str_chars(&mut out, "sub rsp, ");
                push_unsigned(&mut out, *value as u64);
            },
            Instruction::AddRsp(value) => {
                push_str_chars(&mut out, "add rsp, ");
                push_unsigned(&mut out, *value as u64);
            },
            Instruction::MovRegImm64(reg, value) => {
                push_str_chars(&mut out, "mov ");
                push_str_chars(&mut out, reg.name());
                push_str_chars(&mut out, ", ");
                push_signed(&mut out, *value);
            },
            Instruction::MovRegDataAddr(reg, label) => {
                push_str_chars(&mut out, "mov ");
                push_str_chars(&mut out, reg.name());
                push_str_chars(&mut out, ", OFFSET FLAT:");
                push_str_chars(&mut out, label.as_str());
            },
            Instruction::MovRegStack(reg, offset) => {
                push_str_chars(&mut out, "mov ");
                push_str_chars(&mut out, reg.name());
                push_str_chars(&mut out, ", qword ptr [rsp + ");
                push_signed(&mut out, *offset as i64);
                push_str_chars(&mut out, "]");
            },
            Instruction::MovStackReg(offset, reg) => {
                push_str_chars(&mut out, "mov qword ptr [rsp + ");
                push_signed(&mut out, *offset as i64);
                push_str_chars(&mut out, "], ");
                push_str_chars(&mut out, reg.name());
            },
            Instruction::LeaRegRspOffset(reg, offset) => {
                push_str_chars(&mut out, "lea ");
                push_str_chars(&mut out, reg.name());
                push_str_chars(&mut out, ", [rsp + ");
                push_signed(&mut out, *offset as i64);
                push_str_chars(&mut out, "]");
            },
            Instruction::LeaRegBaseIndexScale(dst, base, index, scale) => {
                push_str_chars(&mut out, "lea ");
                push_str_chars(&mut out, dst.name());
                push_str_chars(&mut out, ", [");
                push_str_chars(&mut out, base.name());
                push_str_chars(&mut out, " + ");
                push_str_chars(&mut out, index.name());
                push_str_chars(&mut out, "*");
                push_unsigned(&mut out, *scale as u64);
                push_str_chars(&mut out, "]");
            },
            Instruction::MovRegReg(dst, src) => push_two_regs(&mut out, "mov ", *dst, *src),
            Instruction::MovRegMem(dst, base) => {
                push_str_chars(&mut out, "mov ");
                push_str_chars(&mut out, dst.name());
                push_str_chars(&mut out, ", qword ptr [");
                push_str_chars(&mut out, base.name());
                push_str_chars(&mut out, "]");
            },
            Instruction::MovMemReg(base, src) => {
                push_str_chars(&mut out, "mov qword ptr [");
                push_str_chars(&mut out, base.name());
                push_str_chars(&mut out, "], ");
                push_str_chars(&mut out, src.name());
            },
            Instruction::AddRegReg(dst, src) => push_two_regs(&mut out, "add ", *dst, *src),
            Instruction::SubRegReg(dst, src) => push_two_regs(&mut out, "sub ", *dst, *src),
            Instruction::AddRegImm(reg, value) => {
                push_str_chars(&mut out, "add ");
                push_str_chars(&mut out, reg.name());
                push_str_chars(&mut out, ", ");
                push_signed(&mut out, *value as i64);
            },
            Instruction::SubRegImm(reg, value) => {
                push_str_chars(&mut out, "sub ");
                push_str_chars(&mut out, reg.name());
                push_str_chars(&mut out, ", ");
                push_signed(&mut out, *value as i64);
            },
            Instruction::AndRegReg(dst, src) => push_two_regs(&mut out, "and ", *dst, *src),
            Instruction::OrRegReg(dst, src) => push_two_regs(&mut out, "or ", *dst, *src),
            Instruction::IMulRegReg(dst, src) => push_two_regs(&mut out, "imul ", *dst, *src),
            Instruction::Cqo => push_str_chars(&mut out, "cqo"),
            Instruction::IDivReg(reg) => {
                push_str_chars(&mut out, "idiv ");
                push_str_chars(&mut out, reg.name());
            },
            Instruction::NegReg(reg) => {
                push_str_chars(&mut out, "neg ");
                push_str_chars(&mut out, reg.name());
            },
            Instruction::MovMemReg8(base, src) => {
                push_str_chars(&mut out, "mov byte ptr [");
                push_str_chars(&mut out, base.name());
                push_str_chars(&mut out, "], ");
                push_str_chars(&mut out, low8_name(*src));
            },
            Instruction::MovzxRegMem8(dst, base) => {
                push_str_chars(&mut out, "movzx ");
                push_str_chars(&mut out, reg32_name(*dst));
                push_str_chars(&mut out, ", byte ptr [");
                push_str_chars(&mut out, base.name());
                push_str_chars(&mut out, "]");
            },
            Instruction::CmpRegImm(reg, value) => {
                push_str_chars(&mut out, "cmp ");
                push_str_chars(&mut out, reg.name());
                push_str_chars(&mut out, ", ");
                push_signed(&mut out, *value as i64);
            },
            Instruction::CmpRegReg(left, right) => push_two_regs(&mut out, "cmp ", *left, *right),
            Instruction::SetCondAl(condition) => {
                push_str_chars(&mut out, condition.set_mnemonic());
                push_str_chars(&mut out, " al");
            },
            Instruction::MovzxEaxAl => push_str_chars(&mut out, "movzx eax, al"),
            Instruction::Call(label) => {
                push_str_chars(&mut out, "call ");
                push_str_chars(&mut out, label.as_str());
            },
            Instruction::CallImport(label) => {
                push_str_chars(&mut out, "call qword ptr [rip + ");
                push_str_chars(&mut out, label.as_str());
                push_str_chars(&mut out, "]");
            },
            Instruction::Jump(label) => {
                push_str_chars(&mut out, "jmp ");
                push_str_chars(&mut out, label.as_str());
            },
            Instruction::JumpIf(condition, label) => {
                push_str_chars(&mut out, condition.mnemonic());
                push_str_chars(&mut out, " ");
                push_str_chars(&mut out, label.as_str());
            },
            Instruction::Syscall => push_str_chars(&mut out, "syscall"),
            Instruction::Ret => push_str_chars(&mut out, "ret"),
            Instruction::Ud2 => push_str_chars(&mut out, "ud2"),
        }
        proof {
            assert(out@ =~= render_text(*self));
        }
        string_from_chars(&out)
    }
}


/// An instruction as plain values: labels as their text.
pub ghost enum Ins {
    Label(Seq<char>),
    SubRsp(u32),
    AddRsp(u32),
    MovRegImm64(Register, i64),
    MovRegDataAddr(Register, Seq<char>),
    MovRegStack(Register, i32),
    MovStackReg(i32, Register),
    LeaRegRspOffset(Register, i32),
    LeaRegBaseIndexScale(Register, Register, Register, u8),
    MovRegReg(Register, Register),
    MovRegMem(Register, Register),
    MovMemReg(Register, Register),
    AddRegReg(Register, Register),
    SubRegReg(Register, Register),
    AddRegImm(Register, i32),
    SubRegImm(Register, i32),
    AndRegReg(Register, Register),
    OrRegReg(Register, Register),
    IMulRegReg(Register, Register),
    Cqo,
    IDivReg(Register),
    NegReg(Register),
    MovMemReg8(Register, Register),
    MovzxRegMem8(Register, Register),
    CmpRegImm(Register, i32),
    CmpRegReg(Register, Register),
    SetCondAl(Condition),
    MovzxEaxAl,
    Call(Seq<char>),
    CallImport(Seq<char>),
    Jump(Seq<char>),
    JumpIf(Condition, Seq<char>),
    Syscall,
    Ret,
    Ud2,
}

pub open spec fn ins_view(i: Instruction) -> Ins {
    match i {
        Instruction::Label(l) => Ins::Label(l@),
        Instruction::SubRsp(v) => Ins::SubRsp(v),
        Instruction::AddRsp(v) => Ins::AddRsp(v),
        Instruction::MovRegImm64(r, v) => Ins::MovRegImm64(r, v),
        Instruction::MovRegDataAddr(r, l) => Ins::MovRegDataAddr(r, l@),
        Instruction::MovRegStack(r, o) => Ins::MovRegStack(r, o),
        Instruction::MovStackReg(o, r) => Ins::MovStackReg(o, r),
        Instruction::LeaRegRspOffset(r, o) => Ins::LeaRegRspOffset(r, o),
        Instruction::LeaRegBaseIndexScale(a, b, c, d) => Ins::LeaRegBaseIndexScale(a, b, c, d),
        Instruction::MovRegReg(a, b) => Ins::MovRegReg(a, b),
        Instruction::MovRegMem(a, b) => Ins::MovRegMem(a, b),
        Instruction::MovMemReg(a, b) => Ins::MovMemReg(a, b),
        Instruction::AddRegReg(a, b) => Ins::AddRegReg(a, b),
        Instruction::SubRegReg(a, b) => Ins::SubRegReg(a, b),
        Instruction::AddRegImm(a, v) => Ins::AddRegImm(a, v),
        Instruction::SubRegImm(a, v) => Ins::SubRegImm(a, v),
        Instruction::AndRegReg(a, b) => Ins::AndRegReg(a, b),
        Instruction::OrRegReg(a, b) => Ins::OrRegReg(a, b),
        Instruction::IMulRegReg(a, b) => Ins::IMulRegReg(a, b),
        Instruction::Cqo => Ins::Cqo,
        Instruction::IDivReg(a) => Ins::IDivReg(a),
        Instruction::NegReg(a) => Ins::NegReg(a),
        Instruction::MovMemReg8(a, b) => Ins::MovMemReg8(a, b),
        Instruction::MovzxRegMem8(a, b) => Ins::MovzxRegMem8(a, b),
        Instruction::CmpRegImm(a, v) => Ins::CmpRegImm(a, v),
        Instruction::CmpRegReg(a, b) => Ins::CmpRegReg(a, b),
        Instruction::SetCondAl(c) => Ins::SetCondAl(c),
        Instruction::MovzxEaxAl => Ins::MovzxEaxAl,
        Instruction::Call(l) => Ins::Call(l@),
        Instruction::CallImport(l) => Ins::CallImport(l@),
        Instruction::Jump(l) => Ins::Jump(l@),
        Instruction::JumpIf(c, l) => Ins::JumpIf(c, l@),
        Instruction::Syscall => Ins::Syscall,
        Instruction::Ret => Ins::Ret,
        Instruction::Ud2 => Ins::Ud2,
    }
}

/// A run of instructions as plain values.
pub open spec fn code_view(s: Seq<Instruction>) -> Seq<Ins> {
    s.map_values(|i: Instruction| ins_view(i))
}

/// Whether every label a jump in the code names is defined in the code.
pub open spec fn jumps_resolved(code: Seq<Ins>) -> bool {
    forall|i: int|
        #![trigger code[i]]
        0 <= i < code.len() ==> match code[i] {
            Ins::Jump(l) => code.contains(Ins::Label(l)),
            Ins::JumpIf(_, l) => code.contains(Ins::Label(l)),
            _ => true,
        }
}
/// The registers, frame slots and last comparison of a running program, as integers.
pub ghost struct Machine {
    pub regs: Map<Register, int>,
    pub stack: Map<i32, int>,
    pub flags: (int, int),
}

pub open spec fn reg(m: Machine, r: Register) -> int {
    if m.regs.contains_key(r) { m.regs[r] } else { 0 }
}

pub open spec fn slot(m: Machine, offset: i32) -> int {
    if m.stack.contains_key(offset) { m.stack[offset] } else { 0 }
}

pub open spec fn with_reg(m: Machine, r: Register, v: int) -> Machine {
    Machine { regs: m.regs.insert(r, v), stack: m.stack, flags: m.flags }
}

/// The 64-bit two's-complement value of an integer.
pub open spec fn wrap64(x: int) -> int {
    let w = x % 0x1_0000_0000_0000_0000;
    if w >= 0x8000_0000_0000_0000 { w - 0x1_0000_0000_0000_0000 } else { w }
}

/// What an instruction does to the machine, for the moves, arithmetic and comparisons of
/// scalar code; the others leave these parts of the machine as they were.
pub open spec fn step(m: Machine, i: Ins) -> Machine {
    match i {
        Ins::MovRegImm64(r, v) => with_reg(m, r, v as int),
        Ins::MovRegStack(r, off) => with_reg(m, r, slot(m, off)),
        Ins::MovStackReg(off, r) => Machine { regs: m.regs, stack: m.stack.insert(off, reg(m, r)), flags: m.flags },
        Ins::MovRegReg(a, b) => with_reg(m, a, reg(m, b)),
        Ins::AddRegReg(a, b) => with_reg(m, a, wrap64(reg(m, a) + reg(m, b))),
        Ins::SubRegReg(a, b) => with_reg(m, a, wrap64(reg(m, a) - reg(m, b))),
        Ins::IMulRegReg(a, b) => with_reg(m, a, wrap64(reg(m, a) * reg(m, b))),
        Ins::NegReg(a) => with_reg(m, a, wrap64(-reg(m, a))),
        Ins::CmpRegReg(a, b) => Machine { regs: m.regs, stack: m.stack, flags: (reg(m, a), reg(m, b)) },
        Ins::CmpRegImm(a, v) => Machine { regs: m.regs, stack: m.stack, flags: (reg(m, a), v as int) },
        Ins::SetCondAl(c) => with_reg(
            m,
            Register::Rax,
            reg(m, Register::Rax) - reg(m, Register::Rax) % 256 + if condition_holds(c, m.flags.0, m.flags.1) { 1int } else { 0int },
        ),
        Ins::MovzxEaxAl => with_reg(m, Register::Rax, reg(m, Register::Rax) % 256),
        _ => m,
    }
}

/// The machine after running the code in order.
pub open spec fn run(m: Machine, code: Seq<Ins>) -> Machine
    decreases code.len(),
{
    if code.len() == 0 {
        m
    } else {
        step(run(m, code.drop_last()), code.last())
    }
}

/// Running one instruction is taking its step.
pub proof fn lemma_run_single(m: Machine, i: Ins)
    ensures
        run(m, seq![i]) == step(m, i),
{
    assert(seq![i].drop_last() =~= Seq::<Ins>::empty());
    assert(run(m, Seq::<Ins>::empty()) == m);
}

/// Running three instructions is taking their steps in order.
pub proof fn lemma_run_three(m: Machine, a: Ins, b: Ins, c: Ins)
    ensures
        run(m, seq![a, b, c]) == step(step(step(m, a), b), c),
{
    lemma_run_single(m, a);
    lemma_run_concat(m, seq![a], seq![b]);
    lemma_run_single(step(m, a), b);
    assert(seq![a] + seq![b] =~= seq![a, b]);
    lemma_run_concat(m, seq![a, b], seq![c]);
    lemma_run_single(step(step(m, a), b), c);
    assert(seq![a, b] + seq![c] =~= seq![a, b, c]);
}

/// Where running the code from the machine first jumps: the label of the first jump taken,
/// conditional jumps testing the last comparison; none if control falls through.
pub open spec fn jump_taken(m: Machine, code: Seq<Ins>) -> Option<Seq<char>>
    decreases code.len(),
{
    if code.len() == 0 {
        None
    } else {
        match code[0] {
            Ins::Jump(l) => Some(l),
            Ins::JumpIf(c, l) => if condition_holds(c, m.flags.0, m.flags.1) {
                Some(l)
            } else {
                jump_taken(m, code.drop_first())
            },
            _ => jump_taken(step(m, code[0]), code.drop_first()),
        }
    }
}

/// Running two pieces of code one after the other is running their concatenation.
pub proof fn lemma_run_concat(m: Machine, a: Seq<Ins>, b: Seq<Ins>)
    ensures
        run(m, a + b) == run(run(m, a), b),
    decreases b.len(),
{
    if b.len() == 0 {
        assert(a + b =~= a);
    } else {
        lemma_run_concat(m, a, b.drop_last());
        assert((a + b).drop_last() =~= a + b.drop_last());
        assert((a + b).last() == b.last());
    }
}

} // verus!
