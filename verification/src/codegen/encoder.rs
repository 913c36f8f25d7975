//! The x86-64 machine-code encoder.

use vstd::prelude::*;
use crate::bytes::{le_bytes, lemma_le_bytes_len, push_le};
use crate::text::{chars_of, push_str_chars, str_eq};
use super::CodegenError;
use super::x86::{
    Instruction, Register, fits_i8, imm_size, stack_mem_size, fits_i8_i32, fits_i8_u32, ins_len, jcc_code, low3_of, rex_b_of, rex_r_of,
    rex_x_of, setcc_code,
};

verus! {

/// The ModRM byte: two bits of mode, three of `reg`, three of `rm`.
pub open spec fn modrm_byte(mode: u8, reg: u8, rm: u8) -> u8 {
    (mode * 64 + (reg % 8) * 8 + rm % 8) as u8
}

/// The SIB byte: two bits of scale, three of index, three of base.
pub open spec fn sib_byte(scale: u8, index: u8, base: u8) -> u8 {
    ((scale % 4) * 64 + (index % 8) * 8 + base % 8) as u8
}

/// The SIB scale field for a multiplier of 1, 2, 4 or 8 (0 for any other).
pub open spec fn scale_field(scale: u8) -> u8 {
    if scale == 1 { 0 } else if scale == 2 { 1 } else if scale == 4 { 2 } else if scale == 8 { 3 } else { 0 }
}

/// Whether a value fits in a signed 32-bit displacement.
pub open spec fn fits_i32(v: int) -> bool {
    i32::MIN <= v <= i32::MAX
}

/// The four little-endian bytes of a 32-bit signed value.
pub open spec fn i32_bytes(v: i32) -> Seq<u8> {
    le_bytes((v as u32) as nat, 4)
}

/// An `[rsp + offset]` memory operand with `reg` in the ModRM `reg` field.
pub open spec fn rsp_operand(reg: u8, offset: i32) -> Seq<u8> {
    if fits_i8(offset as int) {
        seq![modrm_byte(1, reg, 4), 0x24u8, offset as u8]
    } else {
        seq![modrm_byte(2, reg, 4), 0x24u8] + i32_bytes(offset)
    }
}

/// A `[base]` memory operand with `reg` in the ModRM `reg` field.
pub open spec fn reg_mem_operand(reg: u8, base: Register) -> Seq<u8> {
    if low3_of(base) == 4 {
        seq![modrm_byte(0, reg, 4), sib_byte(0, 4, low3_of(base))]
    } else {
        seq![modrm_byte(0, reg, low3_of(base))]
    }
}

/// `op r/m64, imm` with the opcode extension `ext`: the short form for values that fit
/// in a byte, else a 32-bit immediate.
pub open spec fn reg_imm_bytes(ext: u8, reg: Register, v: i32) -> Seq<u8> {
    let rex = (0x48 + rex_b_of(reg)) as u8;
    if fits_i8(v as int) {
        seq![rex, 0x83u8, modrm_byte(3, ext, low3_of(reg)), v as u8]
    } else {
        seq![rex, 0x81u8, modrm_byte(3, ext, low3_of(reg))] + i32_bytes(v)
    }
}

/// `sub rsp, v` (`ext` 5, ModRM 0xEC) or `add rsp, v` (ModRM 0xC4).
pub open spec fn rsp_adjust_bytes(modrm: u8, v: u32) -> Seq<u8> {
    if fits_i8(v as int) {
        seq![0x48u8, 0x83u8, modrm, v as u8]
    } else {
        seq![0x48u8, 0x81u8, modrm] + le_bytes(v as nat, 4)
    }
}

pub open spec fn mov_imm64_bytes(reg: Register, v: u64) -> Seq<u8> {
    seq![(0x48 + rex_b_of(reg)) as u8, (0xB8 + low3_of(reg)) as u8] + le_bytes(v as nat, 8)
}

/// Register-to-register `op r/m64, r64` with `dst` in `rm` and `src` in `reg`.
pub open spec fn reg_reg_bytes(opcode: u8, dst: Register, src: Register) -> Seq<u8> {
    seq![(0x48 + rex_r_of(src) + rex_b_of(dst)) as u8, opcode, modrm_byte(3, low3_of(src), low3_of(dst))]
}

/// The message for a label that is not in the table.
pub open spec fn unknown_label_message(label: Seq<char>) -> Seq<char> {
    "unknown label `"@ + label + "`"@
}

/// The label's offset in the table: the last one recorded under that name.
pub open spec fn label_lookup(labels: Seq<(Seq<char>, usize)>, name: Seq<char>) -> Option<usize>
    decreases labels.len(),
{
    if labels.len() == 0 {
        None
    } else if labels.last().0 == name {
        Some(labels.last().1)
    } else {
        label_lookup(labels.drop_last(), name)
    }
}

/// The displacement from the end of an instruction at `cursor` of length `len` to the
/// label, or the message of the error.
pub open spec fn label_displacement(labels: Seq<(Seq<char>, usize)>, label: Seq<char>, cursor: int, len: int) -> Result<i32, Seq<char>> {
    match label_lookup(labels, label) {
        None => Err(unknown_label_message(label)),
        Some(target) => {
            let rel = target - (cursor + len);
            if fits_i32(rel) {
                Ok(rel as i32)
            } else {
                Err("jump displacement does not fit in rel32"@)
            }
        },
    }
}

/// An instruction with a 32-bit displacement to a label after the opcode bytes.
pub open spec fn relative_bytes(opcode: Seq<u8>, labels: Seq<(Seq<char>, usize)>, label: Seq<char>, cursor: int) -> Result<Seq<u8>, Seq<char>> {
    match label_displacement(labels, label, cursor, opcode.len() + 4int) {
        Err(m) => Err(m),
        Ok(rel) => Ok(opcode + i32_bytes(rel)),
    }
}

/// The bytes of an instruction that names no label.
pub open spec fn fixed_encoding(i: Instruction) -> Seq<u8> {
    match i {
        Instruction::SubRsp(v) => rsp_adjust_bytes(0xEC, v),
        Instruction::AddRsp(v) => rsp_adjust_bytes(0xC4, v),
        Instruction::MovRegImm64(reg, v) => mov_imm64_bytes(reg, v as u64),
        Instruction::MovRegStack(reg, offset) =>
            seq![(0x48 + rex_r_of(reg)) as u8, 0x8Bu8] + rsp_operand(low3_of(reg), offset),
        Instruction::MovStackReg(offset, reg) =>
            seq![(0x48 + rex_r_of(reg)) as u8, 0x89u8] + rsp_operand(low3_of(reg), offset),
        Instruction::LeaRegRspOffset(reg, offset) =>
            seq![(0x48 + rex_r_of(reg)) as u8, 0x8Du8] + rsp_operand(low3_of(reg), offset),
        Instruction::LeaRegBaseIndexScale(dst, base, index, scale) => seq![
            (0x48 + rex_r_of(dst) + rex_x_of(index) + rex_b_of(base)) as u8,
            0x8Du8,
            modrm_byte(0, low3_of(dst), 4),
            sib_byte(scale_field(scale), low3_of(index), low3_of(base)),
        ],
        Instruction::MovRegReg(dst, src) => reg_reg_bytes(0x89, dst, src),
        Instruction::MovRegMem(dst, base) =>
            seq![(0x48 + rex_r_of(dst) + rex_b_of(base)) as u8, 0x8Bu8] + reg_mem_operand(low3_of(dst), base),
        Instruction::MovMemReg(base, src) =>
            seq![(0x48 + rex_r_of(src) + rex_b_of(base)) as u8, 0x89u8] + reg_mem_operand(low3_of(src), base),
        Instruction::AddRegReg(dst, src) => reg_reg_bytes(0x01, dst, src),
        Instruction::SubRegReg(dst, src) => reg_reg_bytes(0x29, dst, src),
        Instruction::AddRegImm(reg, v) => reg_imm_bytes(0, reg, v),
        Instruction::SubRegImm(reg, v) => reg_imm_bytes(5, reg, v),
        Instruction::AndRegReg(dst, src) => reg_reg_bytes(0x21, dst, src),
        Instruction::OrRegReg(dst, src) => reg_reg_bytes(0x09, dst, src),
        Instruction::IMulRegReg(dst, src) => seq![
            (0x48 + rex_r_of(dst) + rex_b_of(src)) as u8,
            0x0Fu8,
            0xAFu8,
            modrm_byte(3, low3_of(dst), low3_of(src)),
        ],
        Instruction::Cqo => seq![0x48u8, 0x99u8],
        Instruction::IDivReg(reg) => seq![(0x48 + rex_b_of(reg)) as u8, 0xF7u8, modrm_byte(3, 7, low3_of(reg))],
        Instruction::NegReg(reg) => seq![(0x48 + rex_b_of(reg)) as u8, 0xF7u8, modrm_byte(3, 3, low3_of(reg))],
        Instruction::MovMemReg8(base, src) =>
            seq![(0x40 + rex_r_of(src) + rex_b_of(base)) as u8, 0x88u8] + reg_mem_operand(low3_of(src), base),
        Instruction::MovzxRegMem8(dst, base) =>
            seq![(0x48 + rex_r_of(dst) + rex_b_of(base)) as u8, 0x0Fu8, 0xB6u8] + reg_mem_operand(low3_of(dst), base),
        Instruction::CmpRegImm(reg, v) => reg_imm_bytes(7, reg, v),
        Instruction::CmpRegReg(left, right) => reg_reg_bytes(0x39, left, right),
        Instruction::SetCondAl(c) => seq![0x0Fu8, setcc_code(c), 0xC0u8],
        Instruction::MovzxEaxAl => seq![0x0Fu8, 0xB6u8, 0xC0u8],
        Instruction::Syscall => seq![0x0Fu8, 0x05u8],
        Instruction::Ret => seq![0xC3u8],
        Instruction::Ud2 => seq![0x0Fu8, 0x0Bu8],
        _ => Seq::empty(),
    }
}

/// Whether the instruction refers to a label, so that its bytes depend on where the label is.
pub open spec fn names_label(i: Instruction) -> bool {
    ||| i is Label
    ||| i is MovRegDataAddr
    ||| i is Call
    ||| i is CallImport
    ||| i is Jump
    ||| i is JumpIf
}

/// The bytes of the instruction at offset `cursor` of the code, with the labels and the
/// address the section is loaded at; or the message of the error.
pub open spec fn ins_encoding(i: Instruction, labels: Seq<(Seq<char>, usize)>, vaddr: u64, cursor: int) -> Result<Seq<u8>, Seq<char>> {
    match i {
        Instruction::Label(_) => Ok(Seq::empty()),
        Instruction::MovRegDataAddr(reg, label) => match label_lookup(labels, label@) {
            None => Err("unknown data label `"@ + label@ + "`"@),
            Some(offset) => if vaddr + offset > u64::MAX {
                Err("data label address overflowed"@)
            } else {
                Ok(mov_imm64_bytes(reg, (vaddr + offset) as u64))
            },
        },
        Instruction::Call(label) => relative_bytes(seq![0xE8u8], labels, label@, cursor),
        Instruction::CallImport(label) => relative_bytes(seq![0xFFu8, 0x15u8], labels, label@, cursor),
        Instruction::Jump(label) => relative_bytes(seq![0xE9u8], labels, label@, cursor),
        Instruction::JumpIf(c, label) => relative_bytes(seq![0x0Fu8, jcc_code(c)], labels, label@, cursor),
        _ => Ok(fixed_encoding(i)),
    }
}

/// A table from label names to offsets; a later entry under a name hides earlier ones.
#[derive(Debug, Clone)]
pub struct LabelTable {
    entries: Vec<(String, usize)>,
}

impl LabelTable {
    pub closed spec fn view(&self) -> Seq<(Seq<char>, usize)> {
        self.entries@.map_values(|e: (String, usize)| (e.0@, e.1))
    }

    pub fn new() -> (t: Self)
        ensures
            t@ == Seq::<(Seq<char>, usize)>::empty(),
    {
        let t = LabelTable { entries: Vec::new() };
        assert(t@ =~= Seq::<(Seq<char>, usize)>::empty());
        t
    }

    /// Records `offset` under `name`.
    pub fn insert(&mut self, name: &str, offset: usize)
        ensures
            final(self)@ == old(self)@.push((name@, offset)),
    {
        let owned = crate::text::owned(name);
        self.entries.push((owned, offset));
        assert(self@ =~= old(self)@.push((name@, offset)));
    }

    /// Appends the entries of `other`, in order.
    pub fn extend_from(&mut self, other: &LabelTable)
        ensures
            final(self)@ == old(self)@ + other@,
    {
        let mut i: usize = 0;
        while i < other.entries.len()
            invariant
                i <= other.entries@.len(),
                self@ == old(self)@ + other@.take(i as int),
            decreases other.entries@.len() - i,
        {
            self.insert(other.entries[i].0.as_str(), other.entries[i].1);
            assert(old(self)@ + other@.take(i + 1) =~= (old(self)@ + other@.take(i as int)).push(other@[i as int]));
            i += 1;
        }
        assert(other@.take(other.entries@.len() as int) =~= other@);
    }

    /// The offset last recorded under `name`.
    pub fn get(&self, name: &str) -> (r: Option<usize>)
        ensures
            r == label_lookup(self@, name@),
    {
        let mut i: usize = self.entries.len();
        assert(self@.take(i as int) =~= self@);
        while i > 0
            invariant
                i <= self.entries@.len(),
                label_lookup(self@, name@) == label_lookup(self@.take(i as int), name@),
            decreases i,
        {
            let ghost before = self@.take(i as int);
            assert(before.drop_last() =~= self@.take(i - 1));
            assert(before.last() == (self.entries@[i - 1].0@, self.entries@[i - 1].1));
            if str_eq(self.entries[i - 1].0.as_str(), name) {
                return Some(self.entries[i - 1].1);
            }
            i -= 1;
        }
        None
    }
}

/// The labels and load address an encoding resolves against.
pub struct EncodeContext {
    pub label_offsets: LabelTable,
    pub section_vaddr: u64,
}

pub fn modrm(mode: u8, reg: u8, rm: u8) -> (b: u8)
    requires
        mode < 4,
    ensures
        b == modrm_byte(mode, reg, rm),
{
    let b = (mode << 6u8) | ((reg & 0b111u8) << 3u8) | (rm & 0b111u8);
    assert(b == (mode * 64 + (reg % 8) * 8 + rm % 8) as u8) by (bit_vector)
        requires
            mode < 4,
            b == (mode << 6u8) | ((reg & 0b111u8) << 3u8) | (rm & 0b111u8),
    ;
    b
}

pub fn sib(scale: u8, index: u8, base: u8) -> (b: u8)
    ensures
        b == sib_byte(scale, index, base),
{
    let b = ((scale & 0b11u8) << 6u8) | ((index & 0b111u8) << 3u8) | (base & 0b111u8);
    assert(b == ((scale % 4) * 64 + (index % 8) * 8 + base % 8) as u8) by (bit_vector)
        requires
            b == ((scale & 0b11u8) << 6u8) | ((index & 0b111u8) << 3u8) | (base & 0b111u8),
    ;
    b
}

pub fn scale_bits(scale: u8) -> (b: u8)
    ensures
        b == scale_field(scale),
{
    match scale {
        1 => 0,
        2 => 1,
        4 => 2,
        8 => 3,
        _ => 0,
    }
}

/// A REX prefix: `base` (0x40 or 0x48) with the R, X and B bits.
fn rex(base: u8, r: u8, x: u8, b: u8) -> (v: u8)
    requires
        base == 0x40 || base == 0x48,
        r == 0 || r == 4,
        x == 0 || x == 2,
        b == 0 || b == 1,
    ensures
        v == base + r + x + b,
{
    let v = base | r | x | b;
    assert(v == base + r + x + b) by (bit_vector)
        requires
            base == 0x40 || base == 0x48,
            r == 0 || r == 4,
            x == 0 || x == 2,
            b == 0 || b == 1,
            v == base | r | x | b,
    ;
    v
}

fn push_i32(output: &mut Vec<u8>, v: i32)
    ensures
        final(output)@ == old(output)@ + i32_bytes(v),
{
    push_le(output, (v as u32) as u64, 4);
}

pub fn relative_displacement(from: usize, len: usize, target: usize) -> (r: Result<i32, CodegenError>)
    requires
        from + len <= usize::MAX,
    ensures
        r is Ok <==> fits_i32(target - (from + len)),
        r matches Ok(v) ==> v == target - (from + len),
        r matches Err(e) ==> e.message@ == "jump displacement does not fit in rel32"@,
{
    let end = from + len;
    if target >= end {
        let forward = target - end;
        if forward <= 0x7fff_ffffusize {
            return Ok(forward as i32);
        }
    } else {
        let backward = end - target;
        if backward <= 0x8000_0000usize {
            let v: i64 = -(backward as i64);
            return Ok(v as i32);
        }
    }
    Err(CodegenError::new("jump displacement does not fit in rel32"))
}

pub fn encode_sub_rsp(output: &mut Vec<u8>, value: u32)
    ensures
        final(output)@ == old(output)@ + rsp_adjust_bytes(0xEC, value),
{
    encode_rsp_adjust(output, 0xEC, value);
}

pub fn encode_add_rsp(output: &mut Vec<u8>, value: u32)
    ensures
        final(output)@ == old(output)@ + rsp_adjust_bytes(0xC4, value),
{
    encode_rsp_adjust(output, 0xC4, value);
}

fn encode_rsp_adjust(output: &mut Vec<u8>, modrm_value: u8, value: u32)
    ensures
        final(output)@ == old(output)@ + rsp_adjust_bytes(modrm_value, value),
{
    if fits_i8_u32(value) {
        output.push(0x48);
        output.push(0x83);
        output.push(modrm_value);
        output.push(value as u8);
    } else {
        output.push(0x48);
        output.push(0x81);
        output.push(modrm_value);
        push_le(output, value as u64, 4);
    }
    assert(final(output)@ =~= old(output)@ + rsp_adjust_bytes(modrm_value, value));
}

pub fn encode_mov_reg_imm64(output: &mut Vec<u8>, reg: Register, value: i64)
    ensures
        final(output)@ == old(output)@ + mov_imm64_bytes(reg, value as u64),
{
    output.push(rex(0x48, 0, 0, reg.rex_b()));
    output.push(0xB8 + reg.low3());
    push_le(output, value as u64, 8);
    assert(final(output)@ =~= old(output)@ + mov_imm64_bytes(reg, value as u64));
}

fn encode_rsp_memory_operand(output: &mut Vec<u8>, reg: u8, offset: i32)
    ensures
        final(output)@ == old(output)@ + rsp_operand(reg, offset),
{
    if fits_i8_i32(offset) {
        output.push(modrm(0b01, reg, 0b100));
        output.push(0x24);
        output.push(offset as u8);
    } else {
        output.push(modrm(0b10, reg, 0b100));
        output.push(0x24);
        push_i32(output, offset);
    }
    assert(final(output)@ =~= old(output)@ + rsp_operand(reg, offset));
}

fn encode_register_memory_operand(output: &mut Vec<u8>, reg: u8, base: Register)
    ensures
        final(output)@ == old(output)@ + reg_mem_operand(reg, base),
{
    if base.low3() == 0b100 {
        output.push(modrm(0b00, reg, 0b100));
        output.push(sib(0, 0b100, base.low3()));
    } else {
        output.push(modrm(0b00, reg, base.low3()));
    }
    assert(final(output)@ =~= old(output)@ + reg_mem_operand(reg, base));
}

/// `opcode` with a REX.W prefix carrying `reg`'s R bit, then `[rsp + offset]`.
fn encode_stack_op(output: &mut Vec<u8>, opcode: u8, reg: Register, offset: i32)
    ensures
        final(output)@ == old(output)@ + seq![(0x48 + rex_r_of(reg)) as u8, opcode] + rsp_operand(low3_of(reg), offset),
{
    output.push(rex(0x48, reg.rex_r(), 0, 0));
    output.push(opcode);
    encode_rsp_memory_operand(output, reg.low3(), offset);
    assert(final(output)@ =~= old(output)@ + seq![(0x48 + rex_r_of(reg)) as u8, opcode] + rsp_operand(low3_of(reg), offset));
}

pub fn encode_reg_reg(output: &mut Vec<u8>, opcode: u8, dst: Register, src: Register)
    ensures
        final(output)@ == old(output)@ + reg_reg_bytes(opcode, dst, src),
{
    output.push(rex(0x48, src.rex_r(), 0, dst.rex_b()));
    output.push(opcode);
    output.push(modrm(0b11, src.low3(), dst.low3()));
    assert(final(output)@ =~= old(output)@ + reg_reg_bytes(opcode, dst, src));
}

pub fn encode_reg_imm(output: &mut Vec<u8>, opcode_ext: u8, reg: Register, value: i32)
    ensures
        final(output)@ == old(output)@ + reg_imm_bytes(opcode_ext, reg, value),
{
    output.push(rex(0x48, 0, 0, reg.rex_b()));
    if fits_i8_i32(value) {
        output.push(0x83);
        output.push(modrm(0b11, opcode_ext, reg.low3()));
        output.push(value as u8);
    } else {
        output.push(0x81);
        output.push(modrm(0b11, opcode_ext, reg.low3()));
        push_i32(output, value);
    }
    assert(final(output)@ =~= old(output)@ + reg_imm_bytes(opcode_ext, reg, value));
}

pub fn encode_cmp_reg_imm(output: &mut Vec<u8>, reg: Register, value: i32)
    ensures
        final(output)@ == old(output)@ + reg_imm_bytes(7, reg, value),
{
    encode_reg_imm(output, 7, reg, value);
}

/// The prefix bytes, then a `[base]` operand with `reg` in the ModRM `reg` field.
fn encode_mem_op(output: &mut Vec<u8>, prefix: &[u8], reg: Register, base: Register)
    ensures
        final(output)@ == old(output)@ + prefix@ + reg_mem_operand(low3_of(reg), base),
{
    crate::bytes::extend_bytes(output, prefix);
    encode_register_memory_operand(output, reg.low3(), base);
    assert(final(output)@ =~= old(output)@ + prefix@ + reg_mem_operand(low3_of(reg), base));
}

/// Appends the opcode bytes and the displacement to the label, checking first that the
/// label is known and the displacement fits.
fn encode_relative(output: &mut Vec<u8>, opcode: &[u8], label: &String, context: &EncodeContext, cursor: usize)
    -> (r: Result<(), CodegenError>)
    requires
        cursor + opcode@.len() + 4 <= usize::MAX,
        opcode@.len() <= 2,
    ensures
        match relative_bytes(opcode@, context.label_offsets@, label@, cursor as int) {
            Ok(b) => r is Ok && final(output)@ == old(output)@ + b,
            Err(m) => r is Err && r->Err_0.message@ == m && final(output)@ == old(output)@,
        },
{
    let target = match context.label_offsets.get(label.as_str()) {
        Some(t) => t,
        None => {
            let mut message = chars_of("unknown label `");
            push_str_chars(&mut message, label.as_str());
            push_str_chars(&mut message, "`");
            return Err(CodegenError::from_chars(&message));
        },
    };
    let rel = match relative_displacement(cursor, opcode.len() + 4, target) {
        Ok(rel) => rel,
        Err(e) => return Err(e),
    };
    crate::bytes::extend_bytes(output, opcode);
    push_i32(output, rel);
    Ok(())
}

/// `mov reg, imm64` with the absolute address of a data label.
pub fn encode_mov_reg_data_addr(output: &mut Vec<u8>, reg: Register, label: &String, context: &EncodeContext)
    -> (r: Result<(), CodegenError>)
    ensures
        match ins_encoding(Instruction::MovRegDataAddr(reg, *label), context.label_offsets@, context.section_vaddr, 0) {
            Ok(b) => r is Ok && final(output)@ == old(output)@ + b,
            Err(m) => r is Err && r->Err_0.message@ == m && final(output)@ == old(output)@,
        },
{
    let offset = match context.label_offsets.get(label.as_str()) {
        Some(offset) => offset,
        None => {
            let mut message = chars_of("unknown data label `");
            push_str_chars(&mut message, label.as_str());
            push_str_chars(&mut message, "`");
            return Err(CodegenError::from_chars(&message));
        },
    };
    let absolute = match context.section_vaddr.checked_add(offset as u64) {
        Some(a) => a,
        None => return Err(CodegenError::new("data label address overflowed")),
    };
    encode_mov_reg_imm64(output, reg, absolute as i64);
    assert(((absolute as i64) as u64) == absolute) by (bit_vector);
    Ok(())
}

fn push2(output: &mut Vec<u8>, a: u8, b: u8)
    ensures
        final(output)@ == old(output)@ + seq![a, b],
{
    output.push(a);
    output.push(b);
    assert(final(output)@ =~= old(output)@ + seq![a, b]);
}

fn push3(output: &mut Vec<u8>, a: u8, b: u8, c: u8)
    ensures
        final(output)@ == old(output)@ + seq![a, b, c],
{
    output.push(a);
    output.push(b);
    output.push(c);
    assert(final(output)@ =~= old(output)@ + seq![a, b, c]);
}

fn push4(output: &mut Vec<u8>, a: u8, b: u8, c: u8, d: u8)
    ensures
        final(output)@ == old(output)@ + seq![a, b, c, d],
{
    output.push(a);
    output.push(b);
    output.push(c);
    output.push(d);
    assert(final(output)@ =~= old(output)@ + seq![a, b, c, d]);
}

pub fn encode_mov_reg_stack(output: &mut Vec<u8>, reg: Register, offset: i32)
    ensures
        final(output)@ == old(output)@ + fixed_encoding(Instruction::MovRegStack(reg, offset)),
{
    encode_stack_op(output, 0x8B, reg, offset);
}

pub fn encode_mov_stack_reg(output: &mut Vec<u8>, offset: i32, reg: Register)
    ensures
        final(output)@ == old(output)@ + fixed_encoding(Instruction::MovStackReg(offset, reg)),
{
    encode_stack_op(output, 0x89, reg, offset);
}

pub fn encode_lea_reg_rsp(output: &mut Vec<u8>, reg: Register, offset: i32)
    ensures
        final(output)@ == old(output)@ + fixed_encoding(Instruction::LeaRegRspOffset(reg, offset)),
{
    encode_stack_op(output, 0x8D, reg, offset);
}

pub fn encode_lea_reg_base_index_scale(output: &mut Vec<u8>, dst: Register, base: Register, index: Register, scale: u8)
    ensures
        final(output)@ == old(output)@ + fixed_encoding(Instruction::LeaRegBaseIndexScale(dst, base, index, scale)),
{
    push4(
        output,
        rex(0x48, dst.rex_r(), index.rex_x(), base.rex_b()),
        0x8D,
        modrm(0b00, dst.low3(), 0b100),
        sib(scale_bits(scale), index.low3(), base.low3()),
    );
}

pub fn encode_mov_reg_reg(output: &mut Vec<u8>, dst: Register, src: Register)
    ensures
        final(output)@ == old(output)@ + fixed_encoding(Instruction::MovRegReg(dst, src)),
{
    encode_reg_reg(output, 0x89, dst, src);
}

pub fn encode_mov_reg_mem(output: &mut Vec<u8>, dst: Register, base: Register)
    ensures
        final(output)@ == old(output)@ + fixed_encoding(Instruction::MovRegMem(dst, base)),
{
    let prefix = [rex(0x48, dst.rex_r(), 0, base.rex_b()), 0x8B];
    encode_mem_op(output, &prefix, dst, base);
    assert(prefix@ =~= seq![(0x48 + rex_r_of(dst) + rex_b_of(base)) as u8, 0x8Bu8]);
}

pub fn encode_mov_mem_reg(output: &mut Vec<u8>, base: Register, src: Register)
    ensures
        final(output)@ == old(output)@ + fixed_encoding(Instruction::MovMemReg(base, src)),
{
    let prefix = [rex(0x48, src.rex_r(), 0, base.rex_b()), 0x89];
    encode_mem_op(output, &prefix, src, base);
    assert(prefix@ =~= seq![(0x48 + rex_r_of(src) + rex_b_of(base)) as u8, 0x89u8]);
}

pub fn encode_mov_mem_reg8(output: &mut Vec<u8>, base: Register, src: Register)
    ensures
        final(output)@ == old(output)@ + fixed_encoding(Instruction::MovMemReg8(base, src)),
{
    let prefix = [rex(0x40, src.rex_r(), 0, base.rex_b()), 0x88];
    encode_mem_op(output, &prefix, src, base);
    assert(prefix@ =~= seq![(0x40 + rex_r_of(src) + rex_b_of(base)) as u8, 0x88u8]);
}

pub fn encode_movzx_reg_mem8(output: &mut Vec<u8>, dst: Register, base: Register)
    ensures
        final(output)@ == old(output)@ + fixed_encoding(Instruction::MovzxRegMem8(dst, base)),
{
    let prefix = [rex(0x48, dst.rex_r(), 0, base.rex_b()), 0x0F, 0xB6];
    encode_mem_op(output, &prefix, dst, base);
    assert(prefix@ =~= seq![(0x48 + rex_r_of(dst) + rex_b_of(base)) as u8, 0x0Fu8, 0xB6u8]);
}

/// Appends the bytes of an instruction that adjusts or addresses the stack, or loads an immediate.
fn encode_stack_form(instruction: &Instruction, output: &mut Vec<u8>)
    requires
        *instruction is SubRsp || *instruction is AddRsp || *instruction is MovRegImm64 || *instruction is MovRegStack || *instruction is MovStackReg || *instruction is LeaRegRspOffset || *instruction is LeaRegBaseIndexScale,
    ensures
        final(output)@ == old(output)@ + fixed_encoding(*instruction),
{
    match instruction {
        Instruction::SubRsp(value) => encode_sub_rsp(output, *value),
        Instruction::AddRsp(value) => encode_add_rsp(output, *value),
        Instruction::MovRegImm64(reg, value) => encode_mov_reg_imm64(output, *reg, *value),
        Instruction::MovRegStack(reg, offset) => encode_mov_reg_stack(output, *reg, *offset),
        Instruction::MovStackReg(offset, reg) => encode_mov_stack_reg(output, *offset, *reg),
        Instruction::LeaRegRspOffset(reg, offset) => encode_lea_reg_rsp(output, *reg, *offset),
        Instruction::LeaRegBaseIndexScale(dst, base, index, scale) => {
            encode_lea_reg_base_index_scale(output, *dst, *base, *index, *scale)
        },
        _ => {},
    }
}

/// Appends the bytes of an instruction with a `[register]` memory operand.
fn encode_memory_form(instruction: &Instruction, output: &mut Vec<u8>)
    requires
        *instruction is MovRegMem || *instruction is MovMemReg || *instruction is MovMemReg8 || *instruction is MovzxRegMem8,
    ensures
        final(output)@ == old(output)@ + fixed_encoding(*instruction),
{
    match instruction {
        Instruction::MovRegMem(dst, base) => encode_mov_reg_mem(output, *dst, *base),
        Instruction::MovMemReg(base, src) => encode_mov_mem_reg(output, *base, *src),
        Instruction::MovMemReg8(base, src) => encode_mov_mem_reg8(output, *base, *src),
        Instruction::MovzxRegMem8(dst, base) => encode_movzx_reg_mem8(output, *dst, *base),
        _ => {},
    }
}

/// Appends the bytes of an instruction on registers alone.
fn encode_register_form(instruction: &Instruction, output: &mut Vec<u8>)
    requires
        *instruction is MovRegReg || *instruction is AddRegReg || *instruction is SubRegReg || *instruction is AddRegImm || *instruction is SubRegImm || *instruction is AndRegReg || *instruction is OrRegReg || *instruction is IMulRegReg || *instruction is Cqo || *instruction is IDivReg || *instruction is NegReg || *instruction is CmpRegImm || *instruction is CmpRegReg || *instruction is SetCondAl || *instruction is MovzxEaxAl || *instruction is Syscall || *instruction is Ret || *instruction is Ud2,
    ensures
        final(output)@ == old(output)@ + fixed_encoding(*instruction),
{
    match instruction {
        Instruction::MovRegReg(dst, src) => encode_mov_reg_reg(output, *dst, *src),
        Instruction::AddRegReg(dst, src) => encode_reg_reg(output, 0x01, *dst, *src),
        Instruction::SubRegReg(dst, src) => encode_reg_reg(output, 0x29, *dst, *src),
        Instruction::AddRegImm(reg, value) => encode_reg_imm(output, 0, *reg, *value),
        Instruction::SubRegImm(reg, value) => encode_reg_imm(output, 5, *reg, *value),
        Instruction::AndRegReg(dst, src) => encode_reg_reg(output, 0x21, *dst, *src),
        Instruction::OrRegReg(dst, src) => encode_reg_reg(output, 0x09, *dst, *src),
        Instruction::IMulRegReg(dst, src) => {
            push4(output, rex(0x48, dst.rex_r(), 0, src.rex_b()), 0x0F, 0xAF, modrm(0b11, dst.low3(), src.low3()));
        },
        Instruction::Cqo => push2(output, 0x48, 0x99),
        Instruction::IDivReg(reg) => push3(output, rex(0x48, 0, 0, reg.rex_b()), 0xF7, modrm(0b11, 7, reg.low3())),
        Instruction::NegReg(reg) => push3(output, rex(0x48, 0, 0, reg.rex_b()), 0xF7, modrm(0b11, 3, reg.low3())),
        Instruction::CmpRegImm(reg, value) => encode_reg_imm(output, 7, *reg, *value),
        Instruction::CmpRegReg(left, right) => encode_reg_reg(output, 0x39, *left, *right),
        Instruction::SetCondAl(condition) => push3(output, 0x0F, condition.setcc_opcode(), 0xC0),
        Instruction::MovzxEaxAl => push3(output, 0x0F, 0xB6, 0xC0),
        Instruction::Syscall => push2(output, 0x0F, 0x05),
        Instruction::Ret => {
            output.push(0xC3);
            assert(output@ =~= old(output)@ + seq![0xC3u8]);
        },
        Instruction::Ud2 => push2(output, 0x0F, 0x0B),
        _ => {},
    }
}

/// Appends the bytes of an instruction that names no label.
fn encode_fixed(instruction: &Instruction, output: &mut Vec<u8>)
    requires
        !names_label(*instruction),
    ensures
        final(output)@ == old(output)@ + fixed_encoding(*instruction),
{
    match instruction {
        Instruction::SubRsp(_) | Instruction::AddRsp(_) | Instruction::MovRegImm64(_, _) | Instruction::MovRegStack(_, _)
        | Instruction::MovStackReg(_, _) | Instruction::LeaRegRspOffset(_, _) | Instruction::LeaRegBaseIndexScale(_, _, _, _) => {
            encode_stack_form(instruction, output)
        },
        Instruction::MovRegMem(_, _) | Instruction::MovMemReg(_, _) | Instruction::MovMemReg8(_, _)
        | Instruction::MovzxRegMem8(_, _) => encode_memory_form(instruction, output),
        _ => encode_register_form(instruction, output),
    }
}

/// Appends the bytes of one instruction at offset `cursor` of the code.
pub fn encode_instruction(instruction: &Instruction, output: &mut Vec<u8>, context: &EncodeContext, cursor: usize)
    -> (r: Result<(), CodegenError>)
    requires
        cursor + ins_len(*instruction) <= usize::MAX,
    ensures
        match ins_encoding(*instruction, context.label_offsets@, context.section_vaddr, cursor as int) {
            Ok(b) => r is Ok && final(output)@ == old(output)@ + b,
            Err(m) => r is Err && r->Err_0.message@ == m && final(output)@ == old(output)@,
        },
        (relative_target(*instruction) matches Some(l) ==> (label_lookup(context.label_offsets@, l) matches Some(t) && fits_i32(
            t - (cursor + ins_len(*instruction)),
        ))) && (*instruction matches Instruction::MovRegDataAddr(_, l) ==> (label_lookup(context.label_offsets@, l@) matches Some(t)
            && context.section_vaddr + t <= u64::MAX)) ==> {
            &&& r is Ok
            &&& final(output)@.take(old(output)@.len() as int) == old(output)@
            &&& final(output)@.len() == old(output)@.len() + ins_len(*instruction)
            &&& (relative_target(*instruction) matches Some(l) ==> final(output)@.subrange(
                final(output)@.len() - 4,
                final(output)@.len() as int,
            ) == i32_bytes((label_lookup(context.label_offsets@, l)->Some_0 - (cursor + ins_len(*instruction))) as i32))
        },
{
    proof {
        let labels = context.label_offsets@;
        let i = *instruction;
        if (relative_target(i) matches Some(l) ==> (label_lookup(labels, l) matches Some(t) && fits_i32(t - (cursor + ins_len(i)))))
            && (i matches Instruction::MovRegDataAddr(_, l) ==> (label_lookup(labels, l@) matches Some(t) && context.section_vaddr + t
            <= u64::MAX)) {
            lemma_encoding_law(i, labels, context.section_vaddr, cursor as int);
        }
    }
    match instruction {
        Instruction::Label(_) => {
            assert(output@ =~= output@ + Seq::<u8>::empty());
        },
        Instruction::MovRegDataAddr(reg, label) => {
            return encode_mov_reg_data_addr(output, *reg, label, context);
        },
        Instruction::Call(label) => {
            let opcode = [0xE8u8];
            let r = encode_relative(output, &opcode, label, context, cursor);
            assert(opcode@ =~= seq![0xE8u8]);
            return r;
        },
        Instruction::CallImport(label) => {
            let opcode = [0xFFu8, 0x15u8];
            let r = encode_relative(output, &opcode, label, context, cursor);
            assert(opcode@ =~= seq![0xFFu8, 0x15u8]);
            return r;
        },
        Instruction::Jump(label) => {
            let opcode = [0xE9u8];
            let r = encode_relative(output, &opcode, label, context, cursor);
            assert(opcode@ =~= seq![0xE9u8]);
            return r;
        },
        Instruction::JumpIf(condition, label) => {
            let opcode = [0x0Fu8, condition.jcc_opcode()];
            let r = encode_relative(output, &opcode, label, context, cursor);
            assert(opcode@ =~= seq![0x0Fu8, jcc_code(*condition)]);
            return r;
        },
        _ => encode_fixed(instruction, output),
    }
    Ok(())
}

/// The number of bytes the instructions encode to.
pub open spec fn code_size(instrs: Seq<Instruction>) -> nat
    decreases instrs.len(),
{
    if instrs.len() == 0 {
        0
    } else {
        code_size(instrs.drop_last()) + ins_len(instrs.last())
    }
}

/// Each label of the code with its offset, in order.
pub open spec fn label_entries(instrs: Seq<Instruction>) -> Seq<(Seq<char>, usize)>
    decreases instrs.len(),
{
    if instrs.len() == 0 {
        Seq::empty()
    } else {
        let prev = label_entries(instrs.drop_last());
        match instrs.last() {
            Instruction::Label(name) => prev.push((name@, code_size(instrs.drop_last()) as usize)),
            _ => prev,
        }
    }
}

/// The bytes of the code, or the message of the first instruction that fails.
pub open spec fn encode_all(instrs: Seq<Instruction>, labels: Seq<(Seq<char>, usize)>, vaddr: u64) -> Result<Seq<u8>, Seq<char>>
    decreases instrs.len(),
{
    if instrs.len() == 0 {
        Ok(Seq::empty())
    } else {
        match encode_all(instrs.drop_last(), labels, vaddr) {
            Err(m) => Err(m),
            Ok(prev) => match ins_encoding(instrs.last(), labels, vaddr, code_size(instrs.drop_last()) as int) {
                Err(m) => Err(m),
                Ok(b) => Ok(prev + b),
            },
        }
    }
}

/// Every label of the code lies within it.
pub proof fn lemma_label_offsets_bounded(instrs: Seq<Instruction>, name: Seq<char>)
    requires
        code_size(instrs) <= usize::MAX,
    ensures
        label_lookup(label_entries(instrs), name) matches Some(o) ==> o <= code_size(instrs),
    decreases instrs.len(),
{
    if instrs.len() > 0 {
        let prev = instrs.drop_last();
        lemma_label_offsets_bounded(prev, name);
        let entries = label_entries(instrs);
        if let Instruction::Label(n) = instrs.last() {
            assert(entries.drop_last() =~= label_entries(prev));
        }
    }
}

/// A prefix of the code is no longer than the code.
pub proof fn lemma_code_size_prefix(instrs: Seq<Instruction>, i: int)
    requires
        0 <= i <= instrs.len(),
    ensures
        code_size(instrs.take(i)) <= code_size(instrs),
    decreases instrs.len() - i,
{
    if i < instrs.len() {
        lemma_code_size_prefix(instrs, i + 1);
        assert(instrs.take(i + 1).drop_last() =~= instrs.take(i));
    } else {
        assert(instrs.take(i) =~= instrs);
    }
}

proof fn lemma_piece_lengths(reg: u8, offset: i32, base: Register, ext: u8, r: Register, v: i32, m: u8, w: u32, x: u64)
    ensures
        rsp_operand(reg, offset).len() == stack_mem_size(offset) - 2,
        reg_mem_operand(reg, base).len() == 1,
        reg_imm_bytes(ext, r, v).len() == imm_size(v as int),
        rsp_adjust_bytes(m, w).len() == imm_size(w as int),
        mov_imm64_bytes(r, x).len() == 10,
{
    lemma_le_bytes_len((offset as u32) as nat, 4);
    lemma_le_bytes_len((v as u32) as nat, 4);
    lemma_le_bytes_len(w as nat, 4);
    lemma_le_bytes_len(x as nat, 8);
}

/// Each instruction encodes to exactly as many bytes as its length says.
pub proof fn lemma_encoding_length(i: Instruction, labels: Seq<(Seq<char>, usize)>, vaddr: u64, cursor: int)
    ensures
        ins_encoding(i, labels, vaddr, cursor) matches Ok(b) ==> b.len() == ins_len(i),
{
    match i {
        Instruction::SubRsp(w) => lemma_piece_lengths(0, 0, Register::Rax, 0, Register::Rax, 0, 0xEC, w, 0),
        Instruction::AddRsp(w) => lemma_piece_lengths(0, 0, Register::Rax, 0, Register::Rax, 0, 0xC4, w, 0),
        Instruction::MovRegImm64(r, x) => lemma_piece_lengths(0, 0, Register::Rax, 0, r, 0, 0, 0, x as u64),
        Instruction::MovRegDataAddr(r, label) => {
            if let Some(offset) = label_lookup(labels, label@) {
                if vaddr + offset <= u64::MAX {
                    lemma_piece_lengths(0, 0, Register::Rax, 0, r, 0, 0, 0, (vaddr + offset) as u64);
                }
            }
        },
        Instruction::MovRegStack(r, offset) => lemma_piece_lengths(low3_of(r), offset, Register::Rax, 0, r, 0, 0, 0, 0),
        Instruction::MovStackReg(offset, r) => lemma_piece_lengths(low3_of(r), offset, Register::Rax, 0, r, 0, 0, 0, 0),
        Instruction::LeaRegRspOffset(r, offset) => lemma_piece_lengths(low3_of(r), offset, Register::Rax, 0, r, 0, 0, 0, 0),
        Instruction::MovRegMem(d, base) => lemma_piece_lengths(low3_of(d), 0, base, 0, d, 0, 0, 0, 0),
        Instruction::MovMemReg(base, src) => lemma_piece_lengths(low3_of(src), 0, base, 0, src, 0, 0, 0, 0),
        Instruction::MovMemReg8(base, src) => lemma_piece_lengths(low3_of(src), 0, base, 0, src, 0, 0, 0, 0),
        Instruction::MovzxRegMem8(d, base) => lemma_piece_lengths(low3_of(d), 0, base, 0, d, 0, 0, 0, 0),
        Instruction::AddRegImm(r, v) => lemma_piece_lengths(0, 0, r, 0, r, v, 0, 0, 0),
        Instruction::SubRegImm(r, v) => lemma_piece_lengths(0, 0, r, 5, r, v, 0, 0, 0),
        Instruction::CmpRegImm(r, v) => lemma_piece_lengths(0, 0, r, 7, r, v, 0, 0, 0),
        Instruction::Call(label) => lemma_relative_length(seq![0xE8u8], labels, label@, cursor),
        Instruction::CallImport(label) => lemma_relative_length(seq![0xFFu8, 0x15u8], labels, label@, cursor),
        Instruction::Jump(label) => lemma_relative_length(seq![0xE9u8], labels, label@, cursor),
        Instruction::JumpIf(c, label) => lemma_relative_length(seq![0x0Fu8, jcc_code(c)], labels, label@, cursor),
        _ => {},
    }
}

proof fn lemma_relative_length(opcode: Seq<u8>, labels: Seq<(Seq<char>, usize)>, label: Seq<char>, cursor: int)
    ensures
        relative_bytes(opcode, labels, label, cursor) matches Ok(b) ==> b.len() == opcode.len() + 4,
{
    if let Ok(rel) = label_displacement(labels, label, cursor, opcode.len() + 4int) {
        lemma_le_bytes_len((rel as u32) as nat, 4);
    }
}

/// The code encodes to exactly as many bytes as the lengths of its instructions add up to.
pub proof fn lemma_code_length(instrs: Seq<Instruction>, labels: Seq<(Seq<char>, usize)>, vaddr: u64)
    ensures
        encode_all(instrs, labels, vaddr) matches Ok(b) ==> b.len() == code_size(instrs),
    decreases instrs.len(),
{
    if instrs.len() > 0 {
        lemma_code_length(instrs.drop_last(), labels, vaddr);
        lemma_encoding_length(instrs.last(), labels, vaddr, code_size(instrs.drop_last()) as int);
    }
}

/// Where each label of the code is, and how long the code is.
pub struct InstructionOffsets {
    pub labels: LabelTable,
    pub size: usize,
}

pub fn instruction_offsets(instructions: &[Instruction]) -> (o: InstructionOffsets)
    requires
        code_size(instructions@) <= usize::MAX,
    ensures
        o.labels@ == label_entries(instructions@),
        o.size == code_size(instructions@),
{
    let mut labels = LabelTable::new();
    let mut cursor: usize = 0;
    let mut i: usize = 0;
    while i < instructions.len()
        invariant
            i <= instructions@.len(),
            code_size(instructions@) <= usize::MAX,
            cursor == code_size(instructions@.take(i as int)),
            labels@ == label_entries(instructions@.take(i as int)),
        decreases instructions@.len() - i,
    {
        let ghost prefix = instructions@.take(i as int);
        let ghost next = instructions@.take(i + 1);
        proof {
            assert(next.drop_last() =~= prefix);
            lemma_code_size_prefix(instructions@, i + 1);
        }
        match &instructions[i] {
            Instruction::Label(name) => {
                labels.insert(name.as_str(), cursor);
            },
            other => {
                cursor = cursor + other.len();
            },
        }
        i += 1;
    }
    proof {
        assert(instructions@.take(i as int) =~= instructions@);
    }
    InstructionOffsets { labels, size: cursor }
}

/// The label a jump or call goes to.
pub open spec fn relative_target(i: Instruction) -> Option<Seq<char>> {
    match i {
        Instruction::Call(l) => Some(l@),
        Instruction::CallImport(l) => Some(l@),
        Instruction::Jump(l) => Some(l@),
        Instruction::JumpIf(_, l) => Some(l@),
        _ => None,
    }
}

/// Every instruction encodes, to as many bytes as its length (none for a label), once its
/// labels are known, its displacements fit in 32 bits and a data address does not overflow;
/// and a jump or call ends with the little-endian displacement from the end of the
/// instruction to its label.
pub proof fn lemma_encoding_law(i: Instruction, labels: Seq<(Seq<char>, usize)>, vaddr: u64, cursor: int)
    requires
        relative_target(i) matches Some(l) ==> (label_lookup(labels, l) matches Some(t) && fits_i32(t - (cursor + ins_len(i)))),
        i matches Instruction::MovRegDataAddr(_, l) ==> (label_lookup(labels, l@) matches Some(t) && vaddr + t <= u64::MAX),
    ensures
        ins_encoding(i, labels, vaddr, cursor) is Ok,
        ins_encoding(i, labels, vaddr, cursor)->Ok_0.len() == ins_len(i),
        ins_len(i) == 0 <==> i is Label,
        relative_target(i) matches Some(l) ==> ({
            let b = ins_encoding(i, labels, vaddr, cursor)->Ok_0;
            let t = label_lookup(labels, l)->Some_0;
            b.subrange(b.len() - 4, b.len() as int) == i32_bytes((t - (cursor + ins_len(i))) as i32)
        }),
{
    lemma_encoding_length(i, labels, vaddr, cursor);
    match i {
        Instruction::Call(label) => lemma_relative_tail(seq![0xE8u8], labels, label@, cursor),
        Instruction::CallImport(label) => lemma_relative_tail(seq![0xFFu8, 0x15u8], labels, label@, cursor),
        Instruction::Jump(label) => lemma_relative_tail(seq![0xE9u8], labels, label@, cursor),
        Instruction::JumpIf(c, label) => lemma_relative_tail(seq![0x0Fu8, jcc_code(c)], labels, label@, cursor),
        _ => {},
    }
}

proof fn lemma_relative_tail(opcode: Seq<u8>, labels: Seq<(Seq<char>, usize)>, label: Seq<char>, cursor: int)
    requires
        label_lookup(labels, label) matches Some(t) && fits_i32(t - (cursor + opcode.len() + 4)),
    ensures
        relative_bytes(opcode, labels, label, cursor) matches Ok(b) && b.subrange(opcode.len() as int, b.len() as int)
            == i32_bytes((label_lookup(labels, label)->Some_0 - (cursor + opcode.len() + 4)) as i32),
{
    let t = label_lookup(labels, label)->Some_0;
    let rel = (t - (cursor + opcode.len() + 4)) as i32;
    lemma_le_bytes_len((rel as u32) as nat, 4);
    let b = opcode + i32_bytes(rel);
    assert(b.subrange(opcode.len() as int, b.len() as int) =~= i32_bytes(rel));
}

} // verus!
