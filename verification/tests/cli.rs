use inscribe::abi::{AbiTarget, Stability};
use inscribe::cli::commands::{dispatch, usage, Command};
use inscribe::cli::emit::{
    abi_target, default_output_path, parse_common_args, parse_emit_args, parse_stability_arg,
    EmitFormat,
};
use inscribe::cli::run::{
    format_build_codegen_error, is_sandbox_module_path, parse_build_args, parse_run_args,
    path_extension, should_fallback_to_sandbox,
};
use inscribe::cli::session::{
    default_assembly_output, default_executable_output, default_sandbox_output,
    frame_sandbox_module, parse_target_arg, sandbox_payload, with_extension,
};
use inscribe::codegen::Target;

fn strings(values: &[&str]) -> Vec<String> {
    values.iter().map(|value| value.to_string()).collect()
}

#[test]
fn parses_hir_emit_with_input() {
    let args = vec!["program.mtl".to_string()];
    let parsed = parse_emit_args(EmitFormat::Hir, &args, Target::linux_x86_64())
        .expect("hir args should parse");

    assert_eq!(parsed.input.as_deref(), Some("program.mtl"));
    assert_eq!(parsed.stability, Stability::Stable);
}

#[test]
fn parses_abi_emit_without_input() {
    let args = vec![
        "--target".to_string(),
        "windows-x86_64".to_string(),
        "--stability".to_string(),
        "experimental".to_string(),
    ];
    let parsed = parse_emit_args(EmitFormat::Abi, &args, Target::linux_x86_64())
        .expect("abi args should parse");

    assert!(parsed.input.is_none());
    assert_eq!(parsed.target, Target::windows_x86_64());
    assert_eq!(parsed.stability, Stability::Experimental);
}

#[test]
fn rejects_input_for_abi_emit() {
    let args = vec!["program.mtl".to_string()];
    let error = parse_emit_args(EmitFormat::Abi, &args, Target::linux_x86_64())
        .expect_err("abi emit should reject input");

    assert!(error.contains("does not accept an input file"));
}

#[test]
fn emit_arguments_report_each_error() {
    let host = Target::linux_x86_64();
    assert_eq!(
        parse_emit_args(EmitFormat::Asm, &strings(&[]), host).unwrap_err(),
        "missing input file"
    );
    assert_eq!(
        parse_emit_args(EmitFormat::Asm, &strings(&["a.mtl", "b.mtl"]), host).unwrap_err(),
        "expected at most one input file"
    );
    assert_eq!(
        parse_emit_args(EmitFormat::Asm, &strings(&["a.mtl", "--bogus"]), host).unwrap_err(),
        "unknown flag `--bogus`"
    );
    assert_eq!(
        parse_emit_args(EmitFormat::Asm, &strings(&["a.mtl", "-o"]), host).unwrap_err(),
        "missing value after `-o`"
    );
    assert_eq!(
        parse_emit_args(EmitFormat::Asm, &strings(&["a.mtl", "--target"]), host).unwrap_err(),
        "missing value after `--target`"
    );
    assert_eq!(
        parse_emit_args(EmitFormat::Abi, &strings(&["--stability"]), host).unwrap_err(),
        "missing value after `--stability`"
    );
    assert_eq!(
        parse_emit_args(EmitFormat::Asm, &strings(&["a.mtl", "--target", "mips"]), host)
            .unwrap_err(),
        "unknown target `mips`; expected `linux-x86_64` or `windows-x86_64`"
    );
}

#[test]
fn emit_arguments_default_to_host_target() {
    let parsed = parse_emit_args(
        EmitFormat::Mir,
        &strings(&["main.mtl", "-o", "out.mir"]),
        Target::windows_x86_64(),
    )
    .expect("mir args should parse");
    assert_eq!(parsed.target, Target::windows_x86_64());
    assert_eq!(parsed.output.as_deref(), Some("out.mir"));

    let common = parse_common_args(&strings(&["main.mtl"]), Target::linux_x86_64())
        .expect("common args should parse");
    assert_eq!(common.input, "main.mtl");
    assert_eq!(common.target, Target::linux_x86_64());
}

#[test]
fn emit_formats_and_stabilities() {
    assert_eq!(EmitFormat::parse("abi"), Ok(EmitFormat::Abi));
    assert_eq!(EmitFormat::Abi.extension(), "mabi");
    assert_eq!(EmitFormat::Dwarf.label(), "DWARF summary");
    assert!(!EmitFormat::Abi.requires_input());
    assert!(EmitFormat::Hir.requires_input());
    assert!(EmitFormat::parse("elf")
        .unwrap_err()
        .starts_with("unsupported emit format `elf`"));
    assert_eq!(parse_stability_arg("internal"), Ok(Stability::Internal));
    assert!(parse_stability_arg("frozen").is_err());
    assert_eq!(abi_target(Target::windows_x86_64()), AbiTarget::WindowsX86_64);
}

#[test]
fn default_output_paths_follow_the_format() {
    let linux = Target::linux_x86_64();
    assert_eq!(default_output_path(EmitFormat::Abi, None, linux), "inscribe.mabi");
    assert_eq!(
        default_output_path(EmitFormat::Asm, Some("src/main.mtl"), linux),
        "src/main.asm"
    );
    assert_eq!(
        default_output_path(EmitFormat::Hir, Some("main.mtl"), linux),
        "main.hir"
    );
}

#[test]
fn path_extensions_are_replaced() {
    assert_eq!(with_extension("dir/main.mtl", "asm"), "dir/main.asm");
    assert_eq!(with_extension("main", "exe"), "main.exe");
    assert_eq!(with_extension("archive.tar.gz", "zip"), "archive.tar.zip");
    assert_eq!(with_extension(".hidden", "txt"), ".hidden.txt");
    assert_eq!(with_extension("main.mtl", ""), "main");
    assert_eq!(with_extension("..", "txt"), "..");
    assert_eq!(default_assembly_output("a.mtl"), "a.asm");
    assert_eq!(default_sandbox_output("a.mtl"), "a.smtl");
    assert_eq!(
        default_executable_output("a.mtl", Target::windows_x86_64()),
        "a.exe"
    );
    assert_eq!(default_executable_output("a.mtl", Target::linux_x86_64()), "a.elf");
}

#[test]
fn target_names_are_recognised() {
    let host = Target::linux_x86_64();
    assert_eq!(parse_target_arg(None, host), Ok(host));
    assert_eq!(
        parse_target_arg(Some("windows"), host),
        Ok(Target::windows_x86_64())
    );
    assert_eq!(
        parse_target_arg(Some("x86_64-linux"), Target::windows_x86_64()),
        Ok(Target::linux_x86_64())
    );
    let error = parse_target_arg(Some("arm"), host).unwrap_err();
    assert_eq!(error.stage, "cli");
    assert!(error.message.starts_with("unknown target `arm`"));
}

#[test]
fn sandbox_modules_are_framed() {
    let framed = frame_sandbox_module(&[1, 2, 3]);
    assert_eq!(framed, b"SMTL1\x01\x02\x03".to_vec());
    assert_eq!(sandbox_payload(&framed), Ok(vec![1, 2, 3]));
    let error = sandbox_payload(b"SMTL").unwrap_err();
    assert_eq!(error.stage, "io");
    assert_eq!(error.message, "invalid .smtl file: missing SMTL1 header");
}

#[test]
fn commands_are_dispatched_by_name() {
    assert_eq!(dispatch(&strings(&["emit", "abi"])), Ok(Command::Emit));
    assert_eq!(dispatch(&strings(&["run"])), Ok(Command::Run));
    assert_eq!(dispatch(&strings(&[])), Err(usage()));
    assert_eq!(dispatch(&strings(&["--help"])), Err(usage()));
    let error = dispatch(&strings(&["launch"])).unwrap_err();
    assert!(error.starts_with("unknown command `launch`\n\n"));
    assert!(error.ends_with(&usage()));
}

#[test]
fn run_arguments_imply_the_sandbox() {
    let parsed = parse_run_args(&strings(&["main.mtl", "--allow-stdin"])).expect("run args");
    assert_eq!(parsed.input, "main.mtl");
    assert!(parsed.sandbox);
    assert!(parsed.allow_stdin);
    assert!(!parsed.allow_network);
    assert!(parse_run_args(&strings(&["--sandbox"])).is_err());
    assert_eq!(
        parse_run_args(&strings(&["a.mtl", "b.mtl"])).unwrap_err(),
        "expected a single input file"
    );
    assert_eq!(
        parse_run_args(&strings(&["a.mtl", "--fast"])).unwrap_err(),
        "unknown flag `--fast`"
    );
}

#[test]
fn build_arguments_and_sandbox_paths() {
    let parsed = parse_build_args(
        &strings(&["main.mtl", "--sandbox", "--target", "windows-x86_64"]),
        Target::linux_x86_64(),
    )
    .expect("build args");
    assert_eq!(parsed.input, "main.mtl");
    assert!(parsed.sandbox);
    assert_eq!(parsed.target, Target::windows_x86_64());
    assert!(parsed.output.is_none());

    assert_eq!(path_extension("dir/prog.SMTL"), Some("SMTL".to_string()));
    assert_eq!(path_extension("dir/prog"), None);
    assert!(is_sandbox_module_path("dir/prog.SMTL"));
    assert!(!is_sandbox_module_path("dir/prog.mtl"));
}

#[test]
fn codegen_errors_get_a_sandbox_hint() {
    let message = "native codegen does not yet support closures";
    assert!(should_fallback_to_sandbox(message));
    let formatted = format_build_codegen_error(message);
    assert!(formatted.starts_with(message));
    assert!(formatted.contains("inscribe run --sandbox"));
    assert_eq!(format_build_codegen_error("other failure"), "other failure");
}
