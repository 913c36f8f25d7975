use inscribe::codegen::assembly::render_assembly;
use inscribe::codegen::encoder::{
    encode_instruction, instruction_offsets, modrm, relative_displacement, sib, EncodeContext,
    LabelTable,
};
use inscribe::codegen::image::{align_up, emit_elf, emit_pe, encode, DataItem, LoweredProgram};
use inscribe::codegen::runtime::{
    argument_registers, first_argument_register, sanitize_symbol, LoweringState,
};
use inscribe::codegen::x86::{Condition, Instruction, Register};
use inscribe::codegen::{emit_native_executable, ExecutableFormat, Target};
use inscribe::ast::span::{Position, Span};
use inscribe::mir::{
    BasicBlockData, BasicBlockId, Constant, ConstantValue, LocalDecl, LocalId, MirFunction, MirProgram, Operand, Place,
    Rvalue, Statement, StatementKind, TerminatorKind,
};
use inscribe::types::{FunctionKey, FunctionSignature, Type};

/// The MIR of `fn main() -> int { value }`.
fn main_returning(value: i64) -> MirProgram {
    let span = Span::new(Position::new(0, 1, 1), Position::new(4, 1, 5));
    let constant = Operand::Constant(Constant { ty: Type::Int, value: ConstantValue::Integer(value.to_string()) });
    let main = MirFunction {
        receiver: None,
        name: "main".to_string(),
        signature: FunctionSignature {
            key: FunctionKey { receiver: None, name: "main".to_string() },
            params: Vec::new(),
            return_type: Box::new(Type::Int),
        },
        is_declaration: false,
        locals: vec![LocalDecl { id: LocalId(0), name: "_return".to_string(), ty: Type::Int, mutable: true, temp: true, span }],
        blocks: vec![BasicBlockData {
            id: BasicBlockId(0),
            statements: vec![Statement { kind: StatementKind::Assign(Place::new(LocalId(0)), Rvalue::Use(constant)), span }],
            terminator: TerminatorKind::Return,
        }],
        entry: BasicBlockId(0),
        return_local: LocalId(0),
        span,
    };
    MirProgram { functions: vec![main], span }
}

fn exit_program(code: i64) -> LoweredProgram {
    LoweredProgram {
        entry_label: "_start".to_string(),
        instructions: vec![
            Instruction::Label("_start".to_string()),
            Instruction::MovRegImm64(Register::Rdi, code),
            Instruction::MovRegImm64(Register::Rax, 60),
            Instruction::Syscall,
        ],
        data_items: Vec::new(),
        uses_windows_runtime_imports: false,
    }
}

fn empty_context() -> EncodeContext {
    EncodeContext {
        label_offsets: LabelTable::new(),
        section_vaddr: 0,
    }
}

fn encoded(instruction: Instruction) -> Vec<u8> {
    let mut output = Vec::new();
    encode_instruction(&instruction, &mut output, &empty_context(), 0).expect("should encode");
    output
}

#[test]
fn emits_raw_elf_bytes() {
    let bytes = emit_native_executable(&main_returning(7), Target::linux_x86_64()).expect("elf emission should work");
    assert_eq!(&bytes[..4], b"\x7FELF");
    assert_eq!(bytes[4], 2);
    assert_eq!(bytes[5], 1);
    assert_eq!(u16::from_le_bytes([bytes[18], bytes[19]]), 62);
}

#[test]
fn emits_raw_pe_bytes() {
    let bytes = emit_native_executable(&main_returning(9), Target::windows_x86_64()).expect("pe emission should work");
    assert_eq!(&bytes[..2], b"MZ");
    let pe_offset = u32::from_le_bytes([bytes[0x3c], bytes[0x3d], bytes[0x3e], bytes[0x3f]]) as usize;
    assert_eq!(&bytes[pe_offset..pe_offset + 4], b"PE\0\0");
}

#[test]
fn hand_built_programs_encode_as_elf_and_pe() {
    let bytes = emit_elf(&exit_program(7)).expect("elf emission should work");
    assert_eq!(&bytes[0..4], b"\x7FELF");
    assert_eq!(bytes[4], 2);
    assert_eq!(bytes[5], 1);
    let mut program = exit_program(9);
    program.entry_label = "mainCRTStartup".to_string();
    program.instructions[0] = Instruction::Label("mainCRTStartup".to_string());
    let bytes = emit_pe(&program).expect("pe emission should work");
    let offset = u32::from_le_bytes([bytes[0x3c], bytes[0x3d], bytes[0x3e], bytes[0x3f]]) as usize;
    assert_eq!(u16::from_le_bytes([bytes[offset + 4], bytes[offset + 5]]), 0x8664);
}

#[test]
fn elf_code_follows_the_headers() {
    let program = exit_program(7);
    let bytes = emit_elf(&program).expect("elf emission should work");
    let code = encode(
        &program,
        EncodeContext {
            label_offsets: LabelTable::new(),
            section_vaddr: 0x401000,
        },
    )
    .expect("code should encode");
    assert_eq!(&bytes[0x1000..0x1000 + code.len()], code.as_slice());
}

#[test]
fn register_forms_encode_exactly() {
    assert_eq!(encoded(Instruction::MovRegReg(Register::Rax, Register::Rcx)), vec![0x48, 0x89, 0xc8]);
    assert_eq!(encoded(Instruction::MovRegReg(Register::R8, Register::Rax)), vec![0x49, 0x89, 0xc0]);
    assert_eq!(encoded(Instruction::Syscall), vec![0x0f, 0x05]);
    assert_eq!(encoded(Instruction::Ret), vec![0xc3]);
    assert_eq!(encoded(Instruction::Cqo), vec![0x48, 0x99]);
    assert_eq!(
        encoded(Instruction::MovRegImm64(Register::Rax, 60)),
        vec![0x48, 0xb8, 60, 0, 0, 0, 0, 0, 0, 0]
    );
    assert_eq!(encoded(Instruction::AddRegImm(Register::Rax, 1)), vec![0x48, 0x83, 0xc0, 1]);
    assert_eq!(
        encoded(Instruction::SubRegImm(Register::Rax, 1000)),
        vec![0x48, 0x81, 0xe8, 0xe8, 0x03, 0, 0]
    );
    assert_eq!(encoded(Instruction::SubRsp(8)), vec![0x48, 0x83, 0xec, 8]);
    assert_eq!(encoded(Instruction::Label("x".to_string())), Vec::<u8>::new());
}

#[test]
fn stack_forms_encode_exactly() {
    assert_eq!(
        encoded(Instruction::MovRegStack(Register::Rax, 8)),
        vec![0x48, 0x8b, 0x44, 0x24, 8]
    );
    assert_eq!(
        encoded(Instruction::MovStackReg(256, Register::Rcx)),
        vec![0x48, 0x89, 0x8c, 0x24, 0, 1, 0, 0]
    );
}

#[test]
fn relative_jumps_resolve_labels() {
    let mut labels = LabelTable::new();
    labels.insert("target", 20);
    let context = EncodeContext {
        label_offsets: labels,
        section_vaddr: 0,
    };
    let mut output = Vec::new();
    encode_instruction(&Instruction::Jump("target".to_string()), &mut output, &context, 10)
        .expect("jump should encode");
    assert_eq!(output, vec![0xe9, 5, 0, 0, 0]);

    let mut missing = Vec::new();
    let error = encode_instruction(
        &Instruction::JumpIf(Condition::Equal, "nowhere".to_string()),
        &mut missing,
        &context,
        0,
    )
    .expect_err("unknown labels are refused");
    assert_eq!(error.message, "unknown label `nowhere`");
    assert!(missing.is_empty());

    assert_eq!(relative_displacement(10, 5, 20), Ok(5));
    assert_eq!(relative_displacement(20, 5, 0), Ok(-25));
}

#[test]
fn label_tables_keep_the_last_entry() {
    let mut table = LabelTable::new();
    table.insert("a", 1);
    table.insert("a", 2);
    assert_eq!(table.get("a"), Some(2));
    assert_eq!(table.get("b"), None);
    let mut other = LabelTable::new();
    other.insert("b", 3);
    table.extend_from(&other);
    assert_eq!(table.get("b"), Some(3));
}

#[test]
fn offsets_count_encoded_lengths() {
    let program = exit_program(1);
    let offsets = instruction_offsets(&program.instructions);
    assert_eq!(offsets.size, 22);
    assert_eq!(offsets.labels.get("_start"), Some(0));
    let code = encode(&program, empty_context()).expect("encodes");
    assert_eq!(code.len(), offsets.size);
    assert_eq!(program.entry_offset(), 0);
}

#[test]
fn modrm_sib_and_alignment() {
    assert_eq!(modrm(3, 1, 0), 0xc8);
    assert_eq!(modrm(1, 0, 4), 0x44);
    assert_eq!(sib(0, 4, 4), 0x24);
    assert_eq!(align_up(13, 8), 16);
    assert_eq!(align_up(16, 8), 16);
}

#[test]
fn renders_intel_assembly() {
    let mut program = exit_program(7);
    program.data_items.push(DataItem {
        label: "msg".to_string(),
        bytes: vec![104, 105],
    });
    let text = render_assembly(&program, Target::linux_x86_64());
    assert!(text.starts_with(".intel_syntax noprefix\n.text\n.global _start\n"));
    assert!(text.contains("_start:\n    mov rdi, 7\n    mov rax, 60\n    syscall\n"));
    assert!(text.ends_with(".section .rodata\nmsg:\n    .byte 104, 105\n"));
}

#[test]
fn lowering_state_interns_data_once() {
    let mut state = LoweringState::new();
    let first = state.intern_bytes(vec![1, 2]);
    let again = state.intern_bytes(vec![1, 2]);
    let other = state.intern_c_string("hi");
    assert_eq!(first, "__ml_data_0");
    assert_eq!(again, first);
    assert_eq!(other, "__ml_data_1");
    assert_eq!(state.data_items().len(), 2);
    assert_eq!(state.data_items()[1].bytes, vec![b'h', b'i', 0]);
    assert_eq!(state.fresh_runtime_label("loop"), "__ml_rt_loop_0");
    assert_eq!(state.fresh_runtime_label("loop"), "__ml_rt_loop_1");
    assert!(!state.uses_windows_runtime_imports());
    state.use_windows_imports();
    assert!(state.uses_windows_runtime_imports());
}

#[test]
fn targets_and_calling_registers() {
    assert_eq!(Target::linux_x86_64().executable_format(), ExecutableFormat::Elf64);
    assert_eq!(Target::windows_x86_64().executable_extension(), "exe");
    assert_eq!(argument_registers(Target::windows_x86_64()).len(), 4);
    assert_eq!(first_argument_register(Target::linux_x86_64()), Register::Rdi);
    assert_eq!(sanitize_symbol("User.greet-1"), "User_greet_1");
}

#[test]
fn calls_encode_the_displacement_back_to_their_label() {
    let mut labels = LabelTable::new();
    labels.insert("f", 0);
    let context = EncodeContext { label_offsets: labels, section_vaddr: 0 };
    let mut output = Vec::new();
    encode_instruction(&Instruction::Call("f".to_string()), &mut output, &context, 0).expect("call should encode");
    assert_eq!(output, vec![0xE8, 0xFB, 0xFF, 0xFF, 0xFF]);
    let mut label_bytes = Vec::new();
    encode_instruction(&Instruction::Label("f".to_string()), &mut label_bytes, &context, 0).expect("labels encode");
    assert!(label_bytes.is_empty());
}
