//! The Intel-syntax assembly listing of a lowered program.

use vstd::prelude::*;
use crate::text::{decimal, decimal_chars, push_str_chars, string_from_chars};
use super::Target;
use super::image::{LoweredProgram, DataItem, WIN_IMPORT_GET_STD_HANDLE, WIN_IMPORT_READ_FILE, WIN_IMPORT_WRITE_FILE};
use super::x86::{Instruction, render_text};

verus! {

/// One line per instruction: labels flush left with a colon, others indented.
pub open spec fn instructions_text(instrs: Seq<Instruction>) -> Seq<char>
    decreases instrs.len(),
{
    if instrs.len() == 0 {
        Seq::empty()
    } else {
        instructions_text(instrs.drop_last()) + match instrs.last() {
            Instruction::Label(name) => name@ + ":\n"@,
            other => "    "@ + render_text(other) + "\n"@,
        }
    }
}

/// The bytes in decimal, separated by `, `.
pub open spec fn joined_bytes(bytes: Seq<u8>) -> Seq<char>
    decreases bytes.len(),
{
    if bytes.len() == 0 {
        Seq::empty()
    } else if bytes.len() == 1 {
        decimal(bytes[0] as nat)
    } else {
        joined_bytes(bytes.drop_last()) + ", "@ + decimal(bytes.last() as nat)
    }
}

/// Each data item as a label and a `.byte` line.
pub open spec fn data_text(items: Seq<DataItem>) -> Seq<char>
    decreases items.len(),
{
    if items.len() == 0 {
        Seq::empty()
    } else {
        data_text(items.drop_last()) + items.last().label@ + ":\n"@ + "    .byte "@ + joined_bytes(items.last().bytes@) + "\n"@
    }
}

/// The import address table slots, as zeroed quadwords under their labels.
pub open spec fn import_slots_text() -> Seq<char> {
    WIN_IMPORT_GET_STD_HANDLE@ + ":\n    .quad 0\n"@ + WIN_IMPORT_WRITE_FILE@ + ":\n    .quad 0\n"@
        + WIN_IMPORT_READ_FILE@ + ":\n    .quad 0\n"@
}

/// The whole listing.
pub open spec fn assembly_text(p: LoweredProgram) -> Seq<char> {
    ".intel_syntax noprefix\n"@ + ".text\n"@ + ".global "@ + p.entry_label@ + "\n"@ + instructions_text(p.instructions@)
        + if p.data_items@.len() > 0 || p.uses_windows_runtime_imports {
            ".section .rodata\n"@ + data_text(p.data_items@)
                + if p.uses_windows_runtime_imports { import_slots_text() } else { Seq::empty() }
        } else {
            Seq::empty()
        }
}

fn push_joined_bytes(out: &mut Vec<char>, bytes: &Vec<u8>)
    ensures
        final(out)@ == old(out)@ + joined_bytes(bytes@),
{
    let mut i: usize = 0;
    while i < bytes.len()
        invariant
            i <= bytes@.len(),
            out@ == old(out)@ + joined_bytes(bytes@.take(i as int)),
        decreases bytes@.len() - i,
    {
        let ghost prev = out@;
        if i > 0 {
            push_str_chars(out, ", ");
        }
        let mut digits = decimal_chars(bytes[i] as u64);
        out.append(&mut digits);
        proof {
            let next = bytes@.take(i + 1);
            assert(next.drop_last() =~= bytes@.take(i as int));
            if i == 0 {
                assert(bytes@.take(0) =~= Seq::<u8>::empty());
                assert(out@ =~= old(out)@ + joined_bytes(next));
            } else {
                assert(out@ =~= old(out)@ + joined_bytes(next));
            }
        }
        i += 1;
    }
    assert(bytes@.take(bytes@.len() as int) =~= bytes@);
}

/// The program as Intel-syntax assembly.
pub fn render_assembly(program: &LoweredProgram, _target: Target) -> (s: String)
    ensures
        s@ == assembly_text(*program),
{
    let mut out: Vec<char> = Vec::new();
    push_str_chars(&mut out, ".intel_syntax noprefix\n");
    push_str_chars(&mut out, ".text\n");
    push_str_chars(&mut out, ".global ");
    push_str_chars(&mut out, program.entry_label.as_str());
    push_str_chars(&mut out, "\n");
    let ghost head = out@;

    let mut i: usize = 0;
    while i < program.instructions.len()
        invariant
            i <= program.instructions@.len(),
            out@ == head + instructions_text(program.instructions@.take(i as int)),
        decreases program.instructions@.len() - i,
    {
        match &program.instructions[i] {
            Instruction::Label(name) => {
                push_str_chars(&mut out, name.as_str());
                push_str_chars(&mut out, ":\n");
            },
            other => {
                push_str_chars(&mut out, "    ");
                let text = other.render();
                push_str_chars(&mut out, text.as_str());
                push_str_chars(&mut out, "\n");
            },
        }
        proof {
            let next = program.instructions@.take(i + 1);
            assert(next.drop_last() =~= program.instructions@.take(i as int));
            assert(next.last() == program.instructions@[i as int]);
            assert(out@ =~= head + instructions_text(next));
        }
        i += 1;
    }
    proof {
        assert(program.instructions@.take(i as int) =~= program.instructions@);
    }
    let ghost code = out@;

    if program.data_items.len() > 0 || program.uses_windows_runtime_imports {
        push_str_chars(&mut out, ".section .rodata\n");
        let ghost section_head = out@;
        let mut j: usize = 0;
        while j < program.data_items.len()
            invariant
                j <= program.data_items@.len(),
                out@ == section_head + data_text(program.data_items@.take(j as int)),
            decreases program.data_items@.len() - j,
        {
            let item: &DataItem = &program.data_items[j];
            push_str_chars(&mut out, item.label.as_str());
            push_str_chars(&mut out, ":\n");
            push_str_chars(&mut out, "    .byte ");
            push_joined_bytes(&mut out, &item.bytes);
            push_str_chars(&mut out, "\n");
            proof {
                let next = program.data_items@.take(j + 1);
                assert(next.drop_last() =~= program.data_items@.take(j as int));
                assert(out@ =~= section_head + data_text(next));
            }
            j += 1;
        }
        proof {
            assert(program.data_items@.take(j as int) =~= program.data_items@);
        }
        if program.uses_windows_runtime_imports {
            push_str_chars(&mut out, WIN_IMPORT_GET_STD_HANDLE);
            push_str_chars(&mut out, ":\n    .quad 0\n");
            push_str_chars(&mut out, WIN_IMPORT_WRITE_FILE);
            push_str_chars(&mut out, ":\n    .quad 0\n");
            push_str_chars(&mut out, WIN_IMPORT_READ_FILE);
            push_str_chars(&mut out, ":\n    .quad 0\n");
        }
    }
    proof {
        assert(out@ =~= assembly_text(*program));
    }
    string_from_chars(&out)
}

} // verus!
