//! Executable images: the code and data section, and the ELF and PE files around it.

use vstd::prelude::*;
use crate::bytes::{extend_bytes, le_bytes, lemma_le_bytes_len, push_le};
use crate::text::{chars_of, str_eq};
use super::{CodegenError, OperatingSystem, Target};
use super::encoder::{
    EncodeContext, LabelTable, code_size, encode_all, encode_instruction, instruction_offsets, label_entries,
    label_lookup, lemma_code_length, lemma_code_size_prefix,
};
use super::x86::{Instruction, ins_len};

verus! {

/// Read-only data placed after the code under a label.
#[derive(Debug, Clone)]
pub struct DataItem {
    pub label: String,
    pub bytes: Vec<u8>,
}

/// A program lowered to instructions, with its data and entry label.
#[derive(Debug, Clone)]
pub struct LoweredProgram {
    pub entry_label: String,
    pub instructions: Vec<Instruction>,
    pub data_items: Vec<DataItem>,
    pub uses_windows_runtime_imports: bool,
}

/// `n` zero bytes.
pub open spec fn zeros(n: nat) -> Seq<u8> {
    Seq::new(n, |i: int| 0u8)
}

pub fn push_zeros(out: &mut Vec<u8>, n: usize)
    ensures
        final(out)@ == old(out)@ + zeros(n as nat),
{
    let mut i: usize = 0;
    while i < n
        invariant
            i <= n,
            out@ == old(out)@ + zeros(i as nat),
        decreases n - i,
    {
        out.push(0);
        assert(old(out)@ + zeros(i as nat) + seq![0u8] =~= old(out)@ + zeros((i + 1) as nat));
        i += 1;
    }
}

/// Pads `out` with zeros to `len` bytes, if it is shorter.
pub fn pad_to(out: &mut Vec<u8>, len: usize)
    ensures
        final(out)@ == if old(out)@.len() < len { old(out)@ + zeros((len - old(out)@.len()) as nat) } else { old(out)@ },
{
    if out.len() < len {
        let missing = len - out.len();
        push_zeros(out, missing);
    }
}

/// The bytes of ASCII text.
pub open spec fn ascii(s: Seq<char>) -> Seq<u8> {
    s.map_values(|c: char| c as u8)
}

/// Appends the bytes of ASCII text.
pub fn push_ascii(out: &mut Vec<u8>, s: &str)
    requires
        forall|i: int| 0 <= i < s@.len() ==> (s@[i] as u32) < 128,
    ensures
        final(out)@ == old(out)@ + ascii(s@),
{
    let chars = chars_of(s);
    let mut i: usize = 0;
    while i < chars.len()
        invariant
            chars@ == s@,
            i <= chars@.len(),
            forall|k: int| 0 <= k < s@.len() ==> (s@[k] as u32) < 128,
            out@ == old(out)@ + ascii(s@.take(i as int)),
        decreases chars@.len() - i,
    {
        let c = chars[i];
        out.push(c as u8);
        assert(ascii(s@.take(i + 1)) =~= ascii(s@.take(i as int)).push(c as u8));
        i += 1;
    }
    assert(s@.take(chars@.len() as int) =~= s@);
}

/// Rounds `value` up to a multiple of `alignment`; zero stays zero.
pub open spec fn aligned(value: int, alignment: int) -> int {
    if value == 0 { 0 } else { ((value + alignment - 1) / alignment) * alignment }
}

pub proof fn lemma_aligned(value: int, alignment: int)
    requires
        value >= 0,
        alignment > 0,
    ensures
        value <= aligned(value, alignment) < value + alignment,
        aligned(value, alignment) % alignment == 0,
{
    if value > 0 {
        let q = (value + alignment - 1) / alignment;
        assert((value + alignment - 1) == q * alignment + (value + alignment - 1) % alignment) by (nonlinear_arith)
            requires
                alignment > 0,
                q == (value + alignment - 1) / alignment,
        ;
        assert((q * alignment) % alignment == 0) by (nonlinear_arith)
            requires
                alignment > 0,
        ;
        assert(aligned(value, alignment) == q * alignment);
    } else {
        assert(0int % alignment == 0) by (nonlinear_arith)
            requires
                alignment > 0,
        ;
    }
}

pub fn align_offset(value: usize, alignment: usize) -> (r: usize)
    requires
        alignment > 0,
        value + alignment <= usize::MAX,
    ensures
        r == aligned(value as int, alignment as int),
{
    if value == 0 {
        0
    } else {
        proof {
            lemma_aligned(value as int, alignment as int);
        }
        ((value + alignment - 1) / alignment) * alignment
    }
}

pub fn align_up(value: u32, alignment: u32) -> (r: u32)
    requires
        alignment > 0,
        value + alignment <= u32::MAX,
    ensures
        r == aligned(value as int, alignment as int),
{
    if value == 0 {
        0
    } else {
        proof {
            lemma_aligned(value as int, alignment as int);
        }
        ((value + alignment - 1) / alignment) * alignment
    }
}

impl LoweredProgram {
    /// The offset of the entry label in the code; zero when there is no such label.
    pub fn entry_offset(&self) -> (r: usize)
        requires
            code_size(self.instructions@) <= usize::MAX,
        ensures
            r == match label_lookup(label_entries(self.instructions@), self.entry_label@) {
                Some(o) => o,
                None => 0,
            },
    {
        let offsets = instruction_offsets(self.instructions.as_slice());
        match offsets.labels.get(self.entry_label.as_str()) {
            Some(o) => o,
            None => 0,
        }
    }
}

/// Encodes the program's instructions one after the other.
pub fn encode(program: &LoweredProgram, context: EncodeContext) -> (r: Result<Vec<u8>, CodegenError>)
    requires
        code_size(program.instructions@) <= usize::MAX,
    ensures
        match encode_all(program.instructions@, context.label_offsets@, context.section_vaddr) {
            Ok(b) => r is Ok && r->Ok_0@ == b,
            Err(m) => r is Err && r->Err_0.message@ == m,
        },
{
    let instrs = &program.instructions;
    let mut output: Vec<u8> = Vec::new();
    let mut cursor: usize = 0;
    let mut i: usize = 0;
    while i < instrs.len()
        invariant
            instrs@ == program.instructions@,
            i <= instrs@.len(),
            code_size(instrs@) <= usize::MAX,
            cursor == code_size(instrs@.take(i as int)),
            encode_all(instrs@.take(i as int), context.label_offsets@, context.section_vaddr) == Ok::<Seq<u8>, Seq<char>>(output@),
        decreases instrs@.len() - i,
    {
        let ghost prefix = instrs@.take(i as int);
        proof {
            assert(instrs@.take(i + 1).drop_last() =~= prefix);
            lemma_code_size_prefix(instrs@, i + 1);
        }
        match encode_instruction(&instrs[i], &mut output, &context, cursor) {
            Ok(()) => {},
            Err(e) => {
                proof {
                    let next = instrs@.take(i + 1);
                    assert(next.last() == instrs@[i as int]);
                    assert(next.drop_last() =~= instrs@.take(i as int));
                    assert(encode_all(next, context.label_offsets@, context.section_vaddr) == Err::<Seq<u8>, Seq<char>>(e.message@));
                    lemma_encode_all_fails_later(instrs@, i as int, context.label_offsets@, context.section_vaddr);
                }
                return Err(e);
            },
        }
        cursor = cursor + instrs[i].len();
        i += 1;
    }
    proof {
        assert(instrs@.take(i as int) =~= instrs@);
    }
    Ok(output)
}

/// When the instructions before `i` encode and instruction `i` does not, the whole code
/// fails with instruction `i`'s message.
proof fn lemma_encode_all_fails_later(instrs: Seq<Instruction>, i: int, labels: Seq<(Seq<char>, usize)>, vaddr: u64)
    requires
        0 <= i < instrs.len(),
        encode_all(instrs.take(i + 1), labels, vaddr) is Err,
    ensures
        encode_all(instrs, labels, vaddr) == encode_all(instrs.take(i + 1), labels, vaddr),
    decreases instrs.len() - i,
{
    if i + 1 == instrs.len() {
        assert(instrs.take(i + 1) =~= instrs);
    } else {
        let next = instrs.take(i + 2);
        assert(next.drop_last() =~= instrs.take(i + 1));
        lemma_encode_all_fails_later(instrs, i + 1, labels, vaddr);
    }
}

pub const WIN_IMPORT_GET_STD_HANDLE: &'static str = "__ml_iat_GetStdHandle";
pub const WIN_IMPORT_WRITE_FILE: &'static str = "__ml_iat_WriteFile";
pub const WIN_IMPORT_READ_FILE: &'static str = "__ml_iat_ReadFile";

/// Where the import directory is and how long it is.
#[derive(Debug, Clone, Copy, PartialEq, Eq, Structural)]
pub struct ImportDirectory {
    pub rva: u32,
    pub size: u32,
}

/// The import table the Windows runtime routines call through.
pub struct WindowsImportLayout {
    pub bytes: Vec<u8>,
    pub label_offsets: LabelTable,
    pub directory: ImportDirectory,
    pub start_offset: usize,
    pub end_offset: usize,
}

/// Three 8-byte import thunks and the null one that ends the list.
pub open spec fn thunks(a: nat, b: nat, c: nat) -> Seq<u8> {
    le_bytes(a, 8) + le_bytes(b, 8) + le_bytes(c, 8) + zeros(8)
}

/// The import table placed at relative address `rva`: the descriptor, the DLL name, the
/// three hint/name entries, the lookup table and the address table.
pub open spec fn import_table_bytes(rva: nat) -> Seq<u8> {
    let hints = thunks(rva + 53, rva + 68, rva + 80);
    le_bytes(rva + 96, 4) + zeros(8) + le_bytes(rva + 40, 4) + le_bytes(rva + 128, 4) + zeros(20)
        + ascii("KERNEL32.DLL"@) + seq![0u8]
        + zeros(2) + ascii("GetStdHandle"@) + seq![0u8]
        + zeros(2) + ascii("WriteFile"@) + seq![0u8]
        + zeros(2) + ascii("ReadFile"@) + seq![0u8]
        + zeros(5)
        + hints
        + hints
}

/// The labels of the import address table entries for a table placed at `base`.
pub open spec fn import_labels(base: nat) -> Seq<(Seq<char>, usize)> {
    seq![
        (WIN_IMPORT_GET_STD_HANDLE@, (base + 128) as usize),
        (WIN_IMPORT_WRITE_FILE@, (base + 136) as usize),
        (WIN_IMPORT_READ_FILE@, (base + 144) as usize),
    ]
}

/// The size of the import table.
pub open spec fn import_table_size() -> nat {
    160
}

proof fn lemma_import_table_size(rva: nat)
    ensures
        import_table_bytes(rva).len() == import_table_size(),
{
    reveal_strlit("KERNEL32.DLL");
    reveal_strlit("GetStdHandle");
    reveal_strlit("WriteFile");
    reveal_strlit("ReadFile");
    lemma_le_bytes_len(rva + 96, 4);
    lemma_le_bytes_len(rva + 40, 4);
    lemma_le_bytes_len(rva + 128, 4);
    lemma_le_bytes_len(rva + 53, 8);
    lemma_le_bytes_len(rva + 68, 8);
    lemma_le_bytes_len(rva + 80, 8);
}

fn push_ascii_name(out: &mut Vec<u8>, name: &str)
    requires
        forall|i: int| 0 <= i < name@.len() ==> (name@[i] as u32) < 128,
    ensures
        final(out)@ == old(out)@ + ascii(name@) + seq![0u8],
{
    push_ascii(out, name);
    out.push(0);
}

fn push_thunks(out: &mut Vec<u8>, a: u32, b: u32, c: u32)
    ensures
        final(out)@ == old(out)@ + thunks(a as nat, b as nat, c as nat),
{
    push_le(out, a as u64, 8);
    push_le(out, b as u64, 8);
    push_le(out, c as u64, 8);
    push_zeros(out, 8);
    assert(final(out)@ =~= old(out)@ + thunks(a as nat, b as nat, c as nat));
}

/// Lays out the import table after `start_offset`, aligned to 8, in a section at
/// relative address `section_rva`.
pub fn build_windows_import_layout(start_offset: usize, section_rva: u32) -> (r: Result<WindowsImportLayout, CodegenError>)
    requires
        start_offset + 8 + import_table_size() <= usize::MAX,
        section_rva + aligned(start_offset as int, 8) + import_table_size() <= u32::MAX,
    ensures
        r matches Ok(layout) && ({
            let base = aligned(start_offset as int, 8);
            &&& layout.start_offset == base
            &&& layout.end_offset == base + import_table_size()
            &&& layout.bytes@ == import_table_bytes((section_rva + base) as nat)
            &&& layout.label_offsets@ == import_labels(base as nat)
            &&& layout.directory == (ImportDirectory { rva: (section_rva + base) as u32, size: 40 })
        }),
{
    let base = align_offset(start_offset, 8);
    proof {
        lemma_aligned(start_offset as int, 8);
        reveal_strlit("KERNEL32.DLL");
        reveal_strlit("GetStdHandle");
        reveal_strlit("WriteFile");
        reveal_strlit("ReadFile");
    }
    let rva = section_rva + base as u32;
    let mut bytes: Vec<u8> = Vec::new();
    push_le(&mut bytes, (rva + 96) as u64, 4);
    push_zeros(&mut bytes, 8);
    push_le(&mut bytes, (rva + 40) as u64, 4);
    push_le(&mut bytes, (rva + 128) as u64, 4);
    push_zeros(&mut bytes, 20);
    push_ascii_name(&mut bytes, "KERNEL32.DLL");
    push_zeros(&mut bytes, 2);
    push_ascii_name(&mut bytes, "GetStdHandle");
    push_zeros(&mut bytes, 2);
    push_ascii_name(&mut bytes, "WriteFile");
    push_zeros(&mut bytes, 2);
    push_ascii_name(&mut bytes, "ReadFile");
    push_zeros(&mut bytes, 5);
    push_thunks(&mut bytes, rva + 53, rva + 68, rva + 80);
    push_thunks(&mut bytes, rva + 53, rva + 68, rva + 80);
    let mut label_offsets = LabelTable::new();
    label_offsets.insert(WIN_IMPORT_GET_STD_HANDLE, base + 128);
    label_offsets.insert(WIN_IMPORT_WRITE_FILE, base + 136);
    label_offsets.insert(WIN_IMPORT_READ_FILE, base + 144);
    proof {
        assert(bytes@ =~= import_table_bytes(rva as nat));
        assert(label_offsets@ =~= import_labels(base as nat));
    }
    Ok(WindowsImportLayout {
        bytes,
        label_offsets,
        directory: ImportDirectory { rva, size: 40 },
        start_offset: base,
        end_offset: base + 160,
    })
}

/// The data items as plain values: label and bytes.
pub open spec fn item_views(items: Seq<DataItem>) -> Seq<(Seq<char>, Seq<u8>)> {
    items.map_values(|d: DataItem| (d.label@, d.bytes@))
}

/// Where the data ends when each item is placed at the next multiple of 8 from `start`.
pub open spec fn data_end(items: Seq<(Seq<char>, Seq<u8>)>, start: int) -> int
    decreases items.len(),
{
    if items.len() == 0 {
        start
    } else {
        aligned(data_end(items.drop_last(), start), 8) + items.last().1.len()
    }
}

/// Each data item's label with its offset.
pub open spec fn data_labels(items: Seq<(Seq<char>, Seq<u8>)>, start: int) -> Seq<(Seq<char>, usize)>
    decreases items.len(),
{
    if items.len() == 0 {
        Seq::empty()
    } else {
        data_labels(items.drop_last(), start).push(
            (items.last().0, aligned(data_end(items.drop_last(), start), 8) as usize),
        )
    }
}

/// The bytes from `start` to the end of the data: each item after the zeros that align it.
pub open spec fn data_region(items: Seq<(Seq<char>, Seq<u8>)>, start: int) -> Seq<u8>
    decreases items.len(),
{
    if items.len() == 0 {
        Seq::empty()
    } else {
        let e = data_end(items.drop_last(), start);
        data_region(items.drop_last(), start) + zeros((aligned(e, 8) - e) as nat) + items.last().1
    }
}

pub proof fn lemma_data_end_monotone(items: Seq<(Seq<char>, Seq<u8>)>, start: int, k: int)
    requires
        start >= 0,
        0 <= k <= items.len(),
    ensures
        start <= data_end(items.take(k), start) <= data_end(items, start),
        data_region(items, start).len() == data_end(items, start) - start,
    decreases items.len(),
{
    if items.len() > 0 {
        let prev = items.drop_last();
        lemma_data_end_monotone(prev, start, if k == items.len() { 0 } else { k });
        lemma_aligned(data_end(prev, start), 8);
        if k == items.len() {
            assert(items.take(k) =~= items);
        } else {
            assert(items.take(k) =~= prev.take(k));
        }
    } else {
        assert(items.take(k) =~= items);
    }
}

/// Whether the section carries the Windows import table.
pub open spec fn has_imports(p: LoweredProgram, target: Target) -> bool {
    target.os == OperatingSystem::Windows && p.uses_windows_runtime_imports
}

/// Where the data ends.
pub open spec fn program_data_end(p: LoweredProgram) -> int {
    data_end(item_views(p.data_items@), code_size(p.instructions@) as int)
}

/// Every label of the section: the code's, the data's, then the import table's.
pub open spec fn section_labels(p: LoweredProgram, target: Target) -> Seq<(Seq<char>, usize)> {
    let code = code_size(p.instructions@) as int;
    label_entries(p.instructions@) + data_labels(item_views(p.data_items@), code)
        + if has_imports(p, target) { import_labels(aligned(program_data_end(p), 8) as nat) } else { Seq::empty() }
}

/// The section's bytes and import directory, or the message of the error.
pub open spec fn section_image(p: LoweredProgram, target: Target, vaddr: u64, rva: u32)
    -> Result<(Seq<u8>, Option<ImportDirectory>), Seq<char>>
{
    let code = code_size(p.instructions@) as int;
    let dend = program_data_end(p);
    let base = aligned(dend, 8);
    match encode_all(p.instructions@, section_labels(p, target), vaddr) {
        Err(m) => Err(m),
        Ok(bytes) => Ok((
            bytes + data_region(item_views(p.data_items@), code)
                + if has_imports(p, target) {
                    zeros((base - dend) as nat) + import_table_bytes((rva + base) as nat)
                } else {
                    Seq::empty()
                },
            if has_imports(p, target) { Some(ImportDirectory { rva: (rva + base) as u32, size: 40 }) } else { None },
        )),
    }
}

/// The sizes a section can be built within.
pub open spec fn section_fits(p: LoweredProgram, target: Target, rva: u32) -> bool {
    &&& code_size(p.instructions@) <= usize::MAX
    &&& program_data_end(p) + 8 + import_table_size() <= usize::MAX
    &&& has_imports(p, target) ==> rva + aligned(program_data_end(p), 8) + import_table_size() <= u32::MAX
}

pub struct BuiltSection {
    pub bytes: Vec<u8>,
    pub import_directory: Option<ImportDirectory>,
}

/// Lays out the code, then each data item aligned to 8, then, for Windows programs that
/// call the runtime, the import table, and encodes the code against all their labels.
pub fn build_section(program: &LoweredProgram, target: Target, section_vaddr: u64, section_rva: u32)
    -> (r: Result<BuiltSection, CodegenError>)
    requires
        section_fits(*program, target, section_rva),
    ensures
        match section_image(*program, target, section_vaddr, section_rva) {
            Ok((bytes, dir)) => r is Ok && r->Ok_0.bytes@ == bytes && r->Ok_0.import_directory == dir,
            Err(m) => r is Err && r->Err_0.message@ == m,
        },
{
    let ghost items = item_views(program.data_items@);
    let code_offsets = instruction_offsets(program.instructions.as_slice());
    let code_len = code_offsets.size;
    let mut all_labels = code_offsets.labels;
    let mut cursor = code_len;
    let mut data_layout: Vec<usize> = Vec::new();
    let mut i: usize = 0;
    while i < program.data_items.len()
        invariant
            i <= program.data_items@.len(),
            items == item_views(program.data_items@),
            code_len == code_size(program.instructions@),
            section_fits(*program, target, section_rva),
            cursor == data_end(items.take(i as int), code_len as int),
            all_labels@ == label_entries(program.instructions@) + data_labels(items.take(i as int), code_len as int),
            data_layout@.len() == i,
            forall|k: int| 0 <= k < i ==> data_layout@[k] == aligned(data_end(items.take(k), code_len as int), 8),
        decreases program.data_items@.len() - i,
    {
        proof {
            lemma_data_end_monotone(items, code_len as int, i as int);
            lemma_data_end_monotone(items, code_len as int, i + 1);
            assert(items.take(i + 1).drop_last() =~= items.take(i as int));
            assert(items.take(i + 1).last() == items[i as int]);
            lemma_aligned(cursor as int, 8);
        }
        cursor = align_offset(cursor, 8);
        all_labels.insert(program.data_items[i].label.as_str(), cursor);
        data_layout.push(cursor);
        cursor = cursor + program.data_items[i].bytes.len();
        proof {
            assert(all_labels@ =~= label_entries(program.instructions@) + data_labels(items.take(i + 1), code_len as int));
        }
        i += 1;
    }
    proof {
        assert(items.take(i as int) =~= items);
        lemma_data_end_monotone(items, code_len as int, 0);
    }
    let imports = target.os == OperatingSystem::Windows && program.uses_windows_runtime_imports;
    let import_layout = if imports {
        let layout = match build_windows_import_layout(cursor, section_rva) {
            Ok(layout) => layout,
            Err(e) => return Err(e),
        };
        all_labels.extend_from(&layout.label_offsets);
        cursor = layout.end_offset;
        Some(layout)
    } else {
        None
    };
    proof {
        assert(all_labels@ =~= section_labels(*program, target));
    }
    let mut bytes = match encode(program, EncodeContext { label_offsets: all_labels, section_vaddr }) {
        Ok(b) => b,
        Err(e) => return Err(e),
    };
    proof {
        lemma_code_length(program.instructions@, section_labels(*program, target), section_vaddr);
    }
    let ghost code_bytes = bytes@;
    let mut j: usize = 0;
    while j < program.data_items.len()
        invariant
            j <= program.data_items@.len(),
            items == item_views(program.data_items@),
            code_len == code_size(program.instructions@),
            code_bytes.len() == code_len,
            data_layout@.len() == program.data_items@.len(),
            forall|k: int| 0 <= k < data_layout@.len() ==> data_layout@[k] == aligned(data_end(items.take(k), code_len as int), 8),
            bytes@ == code_bytes + data_region(items.take(j as int), code_len as int),
        decreases program.data_items@.len() - j,
    {
        proof {
            lemma_data_end_monotone(items.take(j as int), code_len as int, 0);
            assert(items.take(j + 1).drop_last() =~= items.take(j as int));
            assert(items.take(j + 1).last() == items[j as int]);
            lemma_aligned(data_end(items.take(j as int), code_len as int), 8);
        }
        pad_to(&mut bytes, data_layout[j]);
        extend_bytes(&mut bytes, program.data_items[j].bytes.as_slice());
        proof {
            assert(bytes@ =~= code_bytes + data_region(items.take(j + 1), code_len as int));
        }
        j += 1;
    }
    proof {
        assert(items.take(j as int) =~= items);
        lemma_data_end_monotone(items, code_len as int, 0);
    }
    let import_directory = match import_layout {
        Some(layout) => {
            proof {
                lemma_aligned(program_data_end(*program), 8);
            }
            pad_to(&mut bytes, layout.start_offset);
            extend_bytes(&mut bytes, layout.bytes.as_slice());
            proof {
                lemma_import_table_size((section_rva + layout.start_offset) as nat);
            }
            Some(layout.directory)
        },
        None => None,
    };
    pad_to(&mut bytes, cursor);
    proof {
        match section_image(*program, target, section_vaddr, section_rva) {
            Ok((b, dir)) => {
                assert(bytes@ =~= b);
            },
            Err(m) => {},
        }
    }
    Ok(BuiltSection { bytes, import_directory })
}

/// The offset of the program's entry label; zero when there is none.
pub open spec fn entry_label_offset(p: LoweredProgram) -> nat {
    match label_lookup(label_entries(p.instructions@), p.entry_label@) {
        Some(o) => o as nat,
        None => 0,
    }
}

/// The ELF file header and the one program header that maps the whole file at 0x400000.
pub open spec fn elf_headers(entry: nat, file_size: nat) -> Seq<u8> {
    seq![0x7Fu8, 0x45u8, 0x4Cu8, 0x46u8, 2u8, 1u8, 1u8, 0u8] + zeros(8)
        + le_bytes(2, 2) + le_bytes(62, 2) + le_bytes(1, 4) + le_bytes(entry, 8) + le_bytes(64, 8)
        + le_bytes(0, 8) + le_bytes(0, 4) + le_bytes(64, 2) + le_bytes(56, 2) + le_bytes(1, 2)
        + le_bytes(0, 2) + le_bytes(0, 2) + le_bytes(0, 2)
        + le_bytes(1, 4) + le_bytes(5, 4) + le_bytes(0, 8) + le_bytes(0x400000, 8) + le_bytes(0x400000, 8)
        + le_bytes(file_size, 8) + le_bytes(file_size, 8) + le_bytes(0x1000, 8)
}

/// The ELF executable: headers, zeros up to 0x1000, then the section loaded at 0x401000.
pub open spec fn elf_image(p: LoweredProgram) -> Result<Seq<u8>, Seq<char>> {
    match section_image(p, Target { arch: super::Architecture::X86_64, os: OperatingSystem::Linux }, 0x401000, 0x1000) {
        Err(m) => Err(m),
        Ok((sec, _)) => Ok(elf_headers(0x401000 + entry_label_offset(p), 0x1000 + sec.len()) + zeros(0xF88) + sec),
    }
}

/// The sizes an executable image can be built within.
pub open spec fn image_fits(p: LoweredProgram, target: Target) -> bool {
    &&& section_fits(p, target, 0x1000)
    &&& program_data_end(p) + 8 + import_table_size() + 0x3000 <= u32::MAX
}

proof fn lemma_image_sizes(p: LoweredProgram, target: Target)
    requires
        image_fits(p, target),
    ensures
        entry_label_offset(p) <= code_size(p.instructions@) <= program_data_end(p),
        section_image(p, target, 0x401000, 0x1000) matches Ok((sec, _)) ==> sec.len() <= program_data_end(p) + 8 + import_table_size(),
        section_image(p, target, 0x1_4000_1000, 0x1000) matches Ok((sec, _)) ==> sec.len() <= program_data_end(p) + 8 + import_table_size(),
{
    let items = item_views(p.data_items@);
    let code = code_size(p.instructions@) as int;
    lemma_data_end_monotone(items, code, 0);
    super::encoder::lemma_label_offsets_bounded(p.instructions@, p.entry_label@);
    lemma_code_length(p.instructions@, section_labels(p, target), 0x401000);
    lemma_code_length(p.instructions@, section_labels(p, target), 0x1_4000_1000);
    lemma_aligned(program_data_end(p), 8);
    lemma_import_table_size((0x1000 + aligned(program_data_end(p), 8)) as nat);
}

/// The ELF executable for Linux on x86-64.
pub fn emit_elf(program: &LoweredProgram) -> (r: Result<Vec<u8>, CodegenError>)
    requires
        image_fits(*program, Target { arch: super::Architecture::X86_64, os: OperatingSystem::Linux }),
    ensures
        match elf_image(*program) {
            Ok(b) => r is Ok && r->Ok_0@ == b,
            Err(m) => r is Err && r->Err_0.message@ == m,
        },
{
    let target = Target::linux_x86_64();
    proof {
        lemma_image_sizes(*program, target);
    }
    let code_offset: usize = 0x1000;
    let base_vaddr: u64 = 0x400000;
    let section_vaddr: u64 = 0x401000;
    let section = match build_section(program, target, section_vaddr, 0x1000) {
        Ok(s) => s,
        Err(e) => return Err(e),
    };
    let entry = section_vaddr + program.entry_offset() as u64;
    let file_size = code_offset + section.bytes.len();

    let mut bytes: Vec<u8> = Vec::new();
    bytes.push(0x7F);
    bytes.push(0x45);
    bytes.push(0x4C);
    bytes.push(0x46);
    bytes.push(2);
    bytes.push(1);
    bytes.push(1);
    bytes.push(0);
    push_zeros(&mut bytes, 8);
    push_le(&mut bytes, 2, 2);
    push_le(&mut bytes, 62, 2);
    push_le(&mut bytes, 1, 4);
    push_le(&mut bytes, entry, 8);
    push_le(&mut bytes, 64, 8);
    push_le(&mut bytes, 0, 8);
    push_le(&mut bytes, 0, 4);
    push_le(&mut bytes, 64, 2);
    push_le(&mut bytes, 56, 2);
    push_le(&mut bytes, 1, 2);
    push_le(&mut bytes, 0, 2);
    push_le(&mut bytes, 0, 2);
    push_le(&mut bytes, 0, 2);

    push_le(&mut bytes, 1, 4);
    push_le(&mut bytes, 5, 4);
    push_le(&mut bytes, 0, 8);
    push_le(&mut bytes, base_vaddr, 8);
    push_le(&mut bytes, base_vaddr, 8);
    push_le(&mut bytes, file_size as u64, 8);
    push_le(&mut bytes, file_size as u64, 8);
    push_le(&mut bytes, 0x1000, 8);
    let ghost headers = bytes@;
    proof {
        assert(headers =~= elf_headers(entry as nat, file_size as nat));
        lemma_elf_headers_len(entry as nat, file_size as nat);
    }
    pad_to(&mut bytes, code_offset);
    extend_bytes(&mut bytes, section.bytes.as_slice());
    proof {
        assert(bytes@ =~= elf_headers(entry as nat, file_size as nat) + zeros(0xF88) + section.bytes@);
    }
    Ok(bytes)
}

proof fn lemma_elf_headers_len(entry: nat, file_size: nat)
    ensures
        elf_headers(entry, file_size).len() == 120,
{
    lemma_le_bytes_len(2, 2);
    lemma_le_bytes_len(62, 2);
    lemma_le_bytes_len(1, 4);
    lemma_le_bytes_len(entry, 8);
    lemma_le_bytes_len(64, 8);
    lemma_le_bytes_len(0, 8);
    lemma_le_bytes_len(0, 4);
    lemma_le_bytes_len(64, 2);
    lemma_le_bytes_len(56, 2);
    lemma_le_bytes_len(1, 2);
    lemma_le_bytes_len(0, 2);
    lemma_le_bytes_len(5, 4);
    lemma_le_bytes_len(0x400000, 8);
    lemma_le_bytes_len(file_size, 8);
    lemma_le_bytes_len(0x1000, 8);
}

/// The DOS stub header: `MZ`, zeros, and the offset 0x80 of the PE signature at 0x3c.
pub open spec fn dos_header() -> Seq<u8> {
    seq![0x4Du8, 0x5Au8] + zeros(0x3A) + le_bytes(0x80, 4) + zeros(0x40)
}

/// The `PE\0\0` signature and the COFF header: x86-64, one section, a 0xF0-byte optional
/// header, and the characteristics of a large-address-aware executable.
pub open spec fn coff_header() -> Seq<u8> {
    seq![0x50u8, 0x45u8, 0u8, 0u8] + le_bytes(0x8664, 2) + le_bytes(1, 2) + zeros(12) + le_bytes(0xF0, 2) + le_bytes(0x23, 2)
}

/// The standard fields of the PE32+ optional header and the first Windows-specific ones.
pub open spec fn optional_header_start(text_raw_size: nat, entry_rva: nat) -> Seq<u8> {
    le_bytes(0x20B, 2) + seq![1u8, 0u8] + le_bytes(text_raw_size, 4) + le_bytes(0, 4) + zeros(4)
        + le_bytes(entry_rva, 4) + le_bytes(0x1000, 4) + le_bytes(0x1_4000_0000, 8)
        + le_bytes(0x1000, 4) + le_bytes(0x200, 4) + le_bytes(6, 2) + zeros(6) + le_bytes(6, 2) + zeros(6)
}

/// The image size, header size, console subsystem, stack and heap sizes and the number of
/// data directories.
pub open spec fn optional_header_sizes(size_of_image: nat) -> Seq<u8> {
    le_bytes(size_of_image, 4) + le_bytes(0x200, 4) + zeros(4) + le_bytes(3, 2) + zeros(2)
        + le_bytes(0x100000, 8) + le_bytes(0x1000, 8) + le_bytes(0x100000, 8) + le_bytes(0x1000, 8)
        + le_bytes(0, 4) + le_bytes(16, 4)
}

/// The sixteen data directories; only the import directory is set.
pub open spec fn data_directories(dir: Option<ImportDirectory>) -> Seq<u8> {
    zeros(8)
        + match dir {
            Some(d) => le_bytes(d.rva as nat, 4) + le_bytes(d.size as nat, 4),
            None => zeros(8),
        }
        + zeros(112)
}

/// The PE32+ optional header.
pub open spec fn optional_header(text_raw_size: nat, entry_rva: nat, size_of_image: nat, dir: Option<ImportDirectory>) -> Seq<u8> {
    optional_header_start(text_raw_size, entry_rva) + optional_header_sizes(size_of_image) + data_directories(dir)
}

/// A section header.
pub open spec fn section_header(name: Seq<u8>, virtual_size: nat, virtual_address: nat, raw_size: nat, raw_offset: nat, characteristics: nat) -> Seq<u8> {
    name + le_bytes(virtual_size, 4) + le_bytes(virtual_address, 4) + le_bytes(raw_size, 4) + le_bytes(raw_offset, 4)
        + zeros(12) + le_bytes(characteristics, 4)
}

/// The name `.text` padded to eight bytes.
pub open spec fn text_name() -> Seq<u8> {
    seq![0x2Eu8, 0x74u8, 0x65u8, 0x78u8, 0x74u8, 0u8, 0u8, 0u8]
}

/// The PE executable: headers padded to 0x200, then the `.text` section loaded at RVA
/// 0x1000 and padded to a multiple of 0x200.
pub open spec fn pe_image(p: LoweredProgram) -> Result<Seq<u8>, Seq<char>> {
    match section_image(p, Target { arch: super::Architecture::X86_64, os: OperatingSystem::Windows }, 0x1_4000_1000, 0x1000) {
        Err(m) => Err(m),
        Ok((sec, dir)) => {
            let raw_size = aligned(sec.len() as int, 0x200) as nat;
            let size_of_image = aligned(0x1000 + sec.len() as int, 0x1000) as nat;
            let characteristics: nat = if dir is Some { 0xE000_0020 } else { 0x6000_0020 };
            let headers = dos_header() + coff_header()
                + optional_header(raw_size, 0x1000 + entry_label_offset(p), size_of_image, dir)
                + section_header(text_name(), sec.len(), 0x1000, raw_size, 0x200, characteristics);
            Ok(headers + zeros(0x50) + sec + zeros((raw_size - sec.len()) as nat))
        },
    }
}

/// Overwrites the four bytes at `offset` with `value`, little-endian.
pub fn write_u32(bytes: &mut Vec<u8>, offset: usize, value: u32)
    requires
        offset + 4 <= old(bytes)@.len(),
    ensures
        final(bytes)@ == old(bytes)@.take(offset as int) + le_bytes(value as nat, 4) + old(bytes)@.skip(offset + 4),
{
    let mut encoded: Vec<u8> = Vec::new();
    push_le(&mut encoded, value as u64, 4);
    proof {
        lemma_le_bytes_len(value as nat, 4);
    }
    let mut k: usize = 0;
    while k < 4
        invariant
            k <= 4,
            encoded@ == le_bytes(value as nat, 4),
            encoded@.len() == 4,
            offset + 4 <= old(bytes)@.len(),
            bytes@.len() == old(bytes)@.len(),
            offset + 4 <= bytes.len(),
            bytes@ == old(bytes)@.take(offset as int) + encoded@.take(k as int) + old(bytes)@.skip(offset + k),
        decreases 4 - k,
    {
        bytes.set(offset + k, encoded[k]);
        assert(bytes@ =~= old(bytes)@.take(offset as int) + encoded@.take(k + 1) + old(bytes)@.skip(offset + k + 1));
        k += 1;
    }
    assert(encoded@.take(4) =~= encoded@);
}

/// Appends a section header.
pub fn write_section_header(
    bytes: &mut Vec<u8>,
    name: &[u8; 8],
    virtual_size: u32,
    virtual_address: u32,
    raw_size: u32,
    raw_offset: u32,
    characteristics: u32,
)
    ensures
        final(bytes)@ == old(bytes)@ + section_header(name@, virtual_size as nat, virtual_address as nat, raw_size as nat,
            raw_offset as nat, characteristics as nat),
{
    extend_bytes(bytes, name);
    push_le(bytes, virtual_size as u64, 4);
    push_le(bytes, virtual_address as u64, 4);
    push_le(bytes, raw_size as u64, 4);
    push_le(bytes, raw_offset as u64, 4);
    push_zeros(bytes, 12);
    push_le(bytes, characteristics as u64, 4);
    assert(final(bytes)@ =~= old(bytes)@ + section_header(name@, virtual_size as nat, virtual_address as nat,
        raw_size as nat, raw_offset as nat, characteristics as nat));
}

fn push_optional_header_start(bytes: &mut Vec<u8>, text_raw_size: u32, entry_rva: u32)
    ensures
        final(bytes)@ == old(bytes)@ + optional_header_start(text_raw_size as nat, entry_rva as nat),
{
    push_le(bytes, 0x20B, 2);
    bytes.push(1);
    bytes.push(0);
    push_le(bytes, text_raw_size as u64, 4);
    push_le(bytes, 0, 4);
    push_zeros(bytes, 4);
    push_le(bytes, entry_rva as u64, 4);
    push_le(bytes, 0x1000, 4);
    push_le(bytes, 0x1_4000_0000, 8);
    push_le(bytes, 0x1000, 4);
    push_le(bytes, 0x200, 4);
    push_le(bytes, 6, 2);
    push_zeros(bytes, 6);
    push_le(bytes, 6, 2);
    push_zeros(bytes, 6);
    assert(final(bytes)@ =~= old(bytes)@ + optional_header_start(text_raw_size as nat, entry_rva as nat));
}

fn push_optional_header_sizes(bytes: &mut Vec<u8>, size_of_image: u32)
    ensures
        final(bytes)@ == old(bytes)@ + optional_header_sizes(size_of_image as nat),
{
    push_le(bytes, size_of_image as u64, 4);
    push_le(bytes, 0x200, 4);
    push_zeros(bytes, 4);
    push_le(bytes, 3, 2);
    push_zeros(bytes, 2);
    push_le(bytes, 0x100000, 8);
    push_le(bytes, 0x1000, 8);
    push_le(bytes, 0x100000, 8);
    push_le(bytes, 0x1000, 8);
    push_le(bytes, 0, 4);
    push_le(bytes, 16, 4);
    assert(final(bytes)@ =~= old(bytes)@ + optional_header_sizes(size_of_image as nat));
}

fn push_data_directories(bytes: &mut Vec<u8>, dir: Option<ImportDirectory>)
    ensures
        final(bytes)@ == old(bytes)@ + data_directories(dir),
{
    push_zeros(bytes, 8);
    match dir {
        Some(d) => {
            push_le(bytes, d.rva as u64, 4);
            push_le(bytes, d.size as u64, 4);
        },
        None => push_zeros(bytes, 8),
    }
    push_zeros(bytes, 112);
    assert(final(bytes)@ =~= old(bytes)@ + data_directories(dir));
}

fn push_optional_header(bytes: &mut Vec<u8>, text_raw_size: u32, entry_rva: u32, size_of_image: u32, dir: Option<ImportDirectory>)
    ensures
        final(bytes)@ == old(bytes)@ + optional_header(text_raw_size as nat, entry_rva as nat, size_of_image as nat, dir),
{
    push_optional_header_start(bytes, text_raw_size, entry_rva);
    push_optional_header_sizes(bytes, size_of_image);
    push_data_directories(bytes, dir);
    assert(final(bytes)@ =~= old(bytes)@ + optional_header(text_raw_size as nat, entry_rva as nat, size_of_image as nat, dir));
}

proof fn lemma_pe_header_lens(raw: nat, entry: nat, image: nat, dir: Option<ImportDirectory>, vs: nat, ch: nat)
    ensures
        dos_header().len() == 0x80,
        coff_header().len() == 24,
        optional_header(raw, entry, image, dir).len() == 0xF0,
        section_header(text_name(), vs, 0x1000, raw, 0x200, ch).len() == 40,
{
    lemma_le_bytes_len(0x80, 4);
    lemma_le_bytes_len(0x8664, 2);
    lemma_le_bytes_len(1, 2);
    lemma_le_bytes_len(0xF0, 2);
    lemma_le_bytes_len(0x23, 2);
    lemma_le_bytes_len(0x20B, 2);
    lemma_le_bytes_len(raw, 4);
    lemma_le_bytes_len(0, 4);
    lemma_le_bytes_len(entry, 4);
    lemma_le_bytes_len(0x1000, 4);
    lemma_le_bytes_len(0x1_4000_0000, 8);
    lemma_le_bytes_len(0x200, 4);
    lemma_le_bytes_len(6, 2);
    lemma_le_bytes_len(image, 4);
    lemma_le_bytes_len(3, 2);
    lemma_le_bytes_len(0x100000, 8);
    lemma_le_bytes_len(0x1000, 8);
    lemma_le_bytes_len(16, 4);
    if let Some(d) = dir {
        lemma_le_bytes_len(d.rva as nat, 4);
        lemma_le_bytes_len(d.size as nat, 4);
    }
    lemma_le_bytes_len(vs, 4);
    lemma_le_bytes_len(ch, 4);
}

/// The PE executable for Windows on x86-64.
pub fn emit_pe(program: &LoweredProgram) -> (r: Result<Vec<u8>, CodegenError>)
    requires
        image_fits(*program, Target { arch: super::Architecture::X86_64, os: OperatingSystem::Windows }),
    ensures
        match pe_image(*program) {
            Ok(b) => r is Ok && r->Ok_0@ == b,
            Err(m) => r is Err && r->Err_0.message@ == m,
        },
{
    let target = Target::windows_x86_64();
    proof {
        lemma_image_sizes(*program, target);
    }
    let code_rva: u32 = 0x1000;
    let headers_size: u32 = 0x200;
    let file_alignment: u32 = 0x200;
    let section_alignment: u32 = 0x1000;
    let image_base: u64 = 0x0000_0001_4000_0000;
    let section = match build_section(program, target, image_base + code_rva as u64, code_rva) {
        Ok(s) => s,
        Err(e) => return Err(e),
    };
    let entry_rva = code_rva + program.entry_offset() as u32;
    let text_virtual_size = section.bytes.len() as u32;
    let text_raw_size = align_up(text_virtual_size, file_alignment);
    let text_raw_ptr = headers_size;
    let size_of_image = align_up(code_rva + text_virtual_size, section_alignment);
    proof {
        lemma_aligned(text_virtual_size as int, 0x200);
        lemma_aligned((code_rva + text_virtual_size) as int, 0x1000);
    }

    let mut bytes: Vec<u8> = Vec::new();
    bytes.push(0x4D);
    bytes.push(0x5A);
    push_zeros(&mut bytes, 0x7E);
    write_u32(&mut bytes, 0x3c, 0x80);
    proof {
        lemma_le_bytes_len(0x80, 4);
        assert(bytes@ =~= dos_header());
    }
    bytes.push(0x50);
    bytes.push(0x45);
    bytes.push(0);
    bytes.push(0);
    push_le(&mut bytes, 0x8664, 2);
    push_le(&mut bytes, 1, 2);
    push_zeros(&mut bytes, 12);
    push_le(&mut bytes, 0xF0, 2);
    push_le(&mut bytes, 0x0023, 2);
    proof {
        assert(bytes@ =~= dos_header() + coff_header());
    }
    push_optional_header(&mut bytes, text_raw_size, entry_rva, size_of_image, section.import_directory);
    let characteristics: u32 = if section.import_directory.is_some() { 0xE000_0020 } else { 0x6000_0020 };
    let text_name_bytes: [u8; 8] = [0x2E, 0x74, 0x65, 0x78, 0x74, 0, 0, 0];
    write_section_header(&mut bytes, &text_name_bytes, text_virtual_size, code_rva, text_raw_size, text_raw_ptr, characteristics);
    proof {
        assert(text_name_bytes@ =~= text_name());
        lemma_pe_header_lens(text_raw_size as nat, entry_rva as nat, size_of_image as nat, section.import_directory,
            text_virtual_size as nat, characteristics as nat);
    }
    let ghost headers = bytes@;
    pad_to(&mut bytes, text_raw_ptr as usize);
    extend_bytes(&mut bytes, section.bytes.as_slice());
    pad_to(&mut bytes, (text_raw_ptr + text_raw_size) as usize);
    proof {
        assert(bytes@ =~= headers + zeros(0x50) + section.bytes@ + zeros((text_raw_size - section.bytes@.len()) as nat));
    }
    Ok(bytes)
}

/// Whether the program's code, data and import table fit in an image for the target.
pub fn image_fits_check(program: &LoweredProgram, target: Target) -> (r: bool)
    ensures
        r == image_fits(*program, target),
{
    let ghost instrs = program.instructions@;
    let mut code: usize = 0;
    let mut i: usize = 0;
    while i < program.instructions.len()
        invariant
            i <= instrs.len(),
            instrs == program.instructions@,
            code == code_size(instrs.take(i as int)),
        decreases instrs.len() - i,
    {
        proof {
            assert(instrs.take(i + 1).drop_last() =~= instrs.take(i as int));
        }
        let n = program.instructions[i].len();
        code = match code.checked_add(n) {
            Some(c) => c,
            None => {
                proof {
                    lemma_code_size_prefix(instrs, i + 1);
                }
                return false;
            },
        };
        i += 1;
    }
    proof {
        assert(instrs.take(i as int) =~= instrs);
    }
    let ghost items = item_views(program.data_items@);
    let mut end: usize = code;
    let mut k: usize = 0;
    while k < program.data_items.len()
        invariant
            k <= program.data_items@.len(),
            items == item_views(program.data_items@),
            code == code_size(instrs),
            instrs == program.instructions@,
            end == data_end(items.take(k as int), code as int),
        decreases program.data_items@.len() - k,
    {
        if end > usize::MAX - 8 {
            proof {
                lemma_data_end_monotone(items, code as int, k as int);
            }
            return false;
        }
        let start = align_offset(end, 8);
        let len = program.data_items[k].bytes.len();
        proof {
            assert(items.take(k + 1).drop_last() =~= items.take(k as int));
            assert(items.take(k + 1).last() == items[k as int]);
        }
        end = match start.checked_add(len) {
            Some(e) => e,
            None => {
                proof {
                    lemma_data_end_monotone(items, code as int, k + 1);
                }
                return false;
            },
        };
        k += 1;
    }
    proof {
        assert(items.take(k as int) =~= items);
    }
    if end > usize::MAX - 168 || end > 4294967295 - 0x3000 - 168 {
        return false;
    }
    true
}

} // verus!
