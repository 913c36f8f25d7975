//! The arguments of `inscribe emit`: what to emit, from which input, for which target.

use vstd::prelude::*;
use crate::abi::{AbiTarget, Stability};
use crate::codegen::{OperatingSystem, Target};
use crate::text::{chars_of, owned, push_str_chars, str_eq, string_from_chars};
use super::session::{
    default_assembly_output, default_text_output, parse_path_arg, parse_target_arg, target_named,
    unknown_target_message, with_extension_of,
};

verus! {

#[derive(Debug, Clone, Copy, PartialEq, Eq, Structural)]
pub enum EmitFormat {
    Asm,
    Hir,
    Mir,
    Dwarf,
    Debug,
    Abi,
}

/// The format a name on the command line stands for.
pub open spec fn format_named(name: Seq<char>) -> Option<EmitFormat> {
    if name == "asm"@ { Some(EmitFormat::Asm) }
    else if name == "hir"@ { Some(EmitFormat::Hir) }
    else if name == "mir"@ { Some(EmitFormat::Mir) }
    else if name == "dwarf"@ { Some(EmitFormat::Dwarf) }
    else if name == "debug"@ { Some(EmitFormat::Debug) }
    else if name == "abi"@ { Some(EmitFormat::Abi) }
    else { None }
}

pub open spec fn extension_of(f: EmitFormat) -> Seq<char> {
    match f {
        EmitFormat::Asm => "asm"@,
        EmitFormat::Hir => "hir"@,
        EmitFormat::Mir => "mir"@,
        EmitFormat::Dwarf => "dwarf"@,
        EmitFormat::Debug => "debug"@,
        EmitFormat::Abi => "mabi"@,
    }
}

pub open spec fn label_of(f: EmitFormat) -> Seq<char> {
    match f {
        EmitFormat::Asm => "assembly"@,
        EmitFormat::Hir => "HIR"@,
        EmitFormat::Mir => "MIR"@,
        EmitFormat::Dwarf => "DWARF summary"@,
        EmitFormat::Debug => "debug report"@,
        EmitFormat::Abi => "ABI header"@,
    }
}

impl EmitFormat {
    pub fn parse(value: &str) -> (r: Result<Self, String>)
        ensures
            match format_named(value@) {
                Some(f) => r == Ok::<EmitFormat, String>(f),
                None => r is Err && r->Err_0@ == "unsupported emit format `"@ + value@
                    + "`; available formats: asm, hir, mir, dwarf, debug, abi"@,
            },
    {
        if str_eq(value, "asm") {
            Ok(EmitFormat::Asm)
        } else if str_eq(value, "hir") {
            Ok(EmitFormat::Hir)
        } else if str_eq(value, "mir") {
            Ok(EmitFormat::Mir)
        } else if str_eq(value, "dwarf") {
            Ok(EmitFormat::Dwarf)
        } else if str_eq(value, "debug") {
            Ok(EmitFormat::Debug)
        } else if str_eq(value, "abi") {
            Ok(EmitFormat::Abi)
        } else {
            let mut message = chars_of("unsupported emit format `");
            push_str_chars(&mut message, value);
            push_str_chars(&mut message, "`; available formats: asm, hir, mir, dwarf, debug, abi");
            Err(string_from_chars(&message))
        }
    }

    pub fn extension(self) -> (s: &'static str)
        ensures
            s@ == extension_of(self),
    {
        match self {
            EmitFormat::Asm => "asm",
            EmitFormat::Hir => "hir",
            EmitFormat::Mir => "mir",
            EmitFormat::Dwarf => "dwarf",
            EmitFormat::Debug => "debug",
            EmitFormat::Abi => "mabi",
        }
    }

    pub fn label(self) -> (s: &'static str)
        ensures
            s@ == label_of(self),
    {
        match self {
            EmitFormat::Asm => "assembly",
            EmitFormat::Hir => "HIR",
            EmitFormat::Mir => "MIR",
            EmitFormat::Dwarf => "DWARF summary",
            EmitFormat::Debug => "debug report",
            EmitFormat::Abi => "ABI header",
        }
    }

    /// Every format but `abi` is emitted from an input file.
    pub fn requires_input(self) -> (r: bool)
        ensures
            r == !(self is Abi),
    {
        !matches!(self, EmitFormat::Abi)
    }
}

#[derive(Debug)]
pub struct ParsedArgs {
    pub input: Option<String>,
    pub output: Option<String>,
    pub target: Target,
    pub stability: Stability,
}

#[derive(Debug)]
pub struct CommonArgs {
    pub input: String,
    pub output: Option<String>,
    pub target: Target,
}

/// What the arguments read so far have set.
pub ghost struct ArgState {
    pub input: Option<Seq<char>>,
    pub output: Option<Seq<char>>,
    pub target: Option<Target>,
    pub stability: Stability,
}

/// The stability a name on the command line stands for.
pub open spec fn stability_named(name: Seq<char>) -> Option<Stability> {
    if name == "stable"@ { Some(Stability::Stable) }
    else if name == "experimental"@ { Some(Stability::Experimental) }
    else if name == "internal"@ { Some(Stability::Internal) }
    else { None }
}

pub open spec fn unknown_stability_message(name: Seq<char>) -> Seq<char> {
    "unknown stability `"@ + name + "`; expected `stable`, `experimental`, or `internal`"@
}

/// Reads the arguments from index `i` on: `-o`/`--output`, `--target` and `--stability`
/// take the next argument; any other argument starting with `-` is an unknown flag; the
/// rest is the input, of which there is at most one.
pub open spec fn scan_args(args: Seq<Seq<char>>, i: int, st: ArgState) -> Result<ArgState, Seq<char>>
    decreases args.len() - i,
{
    if i < 0 || i >= args.len() {
        Ok(st)
    } else {
        let a = args[i];
        if a == "-o"@ || a == "--output"@ {
            if i + 1 >= args.len() {
                Err("missing value after `-o`"@)
            } else {
                scan_args(args, i + 2, ArgState { output: Some(args[i + 1]), ..st })
            }
        } else if a == "--target"@ {
            if i + 1 >= args.len() {
                Err("missing value after `--target`"@)
            } else {
                match target_named(args[i + 1]) {
                    Some(t) => scan_args(args, i + 2, ArgState { target: Some(t), ..st }),
                    None => Err(unknown_target_message(args[i + 1])),
                }
            }
        } else if a == "--stability"@ {
            if i + 1 >= args.len() {
                Err("missing value after `--stability`"@)
            } else {
                match stability_named(args[i + 1]) {
                    Some(s) => scan_args(args, i + 2, ArgState { stability: s, ..st }),
                    None => Err(unknown_stability_message(args[i + 1])),
                }
            }
        } else if a.len() > 0 && a[0] == '-' {
            Err("unknown flag `"@ + a + "`"@)
        } else if st.input is Some {
            Err("expected at most one input file"@)
        } else {
            scan_args(args, i + 1, ArgState { input: Some(a), ..st })
        }
    }
}

/// Nothing set yet: no input, output or target, and stable.
pub open spec fn initial_args() -> ArgState {
    ArgState { input: None, output: None, target: None, stability: Stability::Stable }
}

/// The arguments as character sequences.
pub open spec fn arg_views(args: Seq<String>) -> Seq<Seq<char>> {
    args.map_values(|s: String| s@)
}

/// The outcome of reading the arguments of an emit of `format`, with `host` as the
/// target when none is named.
pub open spec fn emit_args(format: EmitFormat, args: Seq<Seq<char>>, host: Target) -> Result<ArgState, Seq<char>> {
    match scan_args(args, 0, initial_args()) {
        Err(m) => Err(m),
        Ok(st) => if !(format is Abi) && st.input is None {
            Err("missing input file"@)
        } else if format is Abi && st.input is Some {
            Err("`emit abi` does not accept an input file"@)
        } else {
            Ok(ArgState { target: Some(match st.target { Some(t) => t, None => host }), ..st })
        },
    }
}

/// A failure while reading the arguments is the outcome.
proof fn lemma_scan_error(format: EmitFormat, args: Seq<Seq<char>>, host: Target, m: Seq<char>)
    requires
        scan_args(args, 0, initial_args()) == Err::<ArgState, Seq<char>>(m),
    ensures
        emit_args(format, args, host) == Err::<ArgState, Seq<char>>(m),
{
}

pub open spec fn opt_view(o: Option<String>) -> Option<Seq<char>> {
    match o {
        Some(s) => Some(s@),
        None => None,
    }
}

pub fn parse_stability_arg(value: &str) -> (r: Result<Stability, String>)
    ensures
        match stability_named(value@) {
            Some(s) => r == Ok::<Stability, String>(s),
            None => r is Err && r->Err_0@ == unknown_stability_message(value@),
        },
{
    if str_eq(value, "stable") {
        Ok(Stability::Stable)
    } else if str_eq(value, "experimental") {
        Ok(Stability::Experimental)
    } else if str_eq(value, "internal") {
        Ok(Stability::Internal)
    } else {
        let mut message = chars_of("unknown stability `");
        push_str_chars(&mut message, value);
        push_str_chars(&mut message, "`; expected `stable`, `experimental`, or `internal`");
        Err(string_from_chars(&message))
    }
}

fn error_text(message: &str) -> (s: String)
    ensures
        s@ == message@,
{
    owned(message)
}

/// Reads the arguments of an emit of `format`; `host` is the target when none is named.
pub fn parse_emit_args(format: EmitFormat, args: &[String], host: Target) -> (r: Result<ParsedArgs, String>)
    ensures
        match emit_args(format, arg_views(args@), host) {
            Ok(st) => r is Ok && opt_view(r->Ok_0.input) == st.input && opt_view(r->Ok_0.output) == st.output
                && Some(r->Ok_0.target) == st.target && r->Ok_0.stability == st.stability,
            Err(m) => r is Err && r->Err_0@ == m,
        },
{
    let ghost views = arg_views(args@);
    let mut input: Option<String> = None;
    let mut output: Option<String> = None;
    let mut target: Option<Target> = None;
    let mut stability = Stability::Stable;
    let mut index: usize = 0;
    while index < args.len()
        invariant
            views == arg_views(args@),
            index <= args@.len() + 1,
            scan_args(views, 0, initial_args()) == scan_args(views, index as int,
                ArgState { input: opt_view(input), output: opt_view(output), target, stability }),
        decreases args@.len() + 1 - index,
    {
        let a = args[index].as_str();
        let ghost st = ArgState { input: opt_view(input), output: opt_view(output), target, stability };
        assert(views[index as int] == a@);
        if str_eq(a, "-o") || str_eq(a, "--output") {
            if index + 1 >= args.len() {
                proof {
                    lemma_scan_error(format, views, host, "missing value after `-o`"@);
                }
                return Err(error_text("missing value after `-o`"));
            }
            assert(views[index + 1] == args@[index + 1]@);
            output = Some(parse_path_arg(args[index + 1].as_str()));
            index += 2;
        } else if str_eq(a, "--target") {
            if index + 1 >= args.len() {
                proof {
                    lemma_scan_error(format, views, host, "missing value after `--target`"@);
                }
                return Err(error_text("missing value after `--target`"));
            }
            assert(views[index + 1] == args@[index + 1]@);
            match parse_target_arg(Some(args[index + 1].as_str()), host) {
                Ok(t) => target = Some(t),
                Err(e) => return Err(e.message),
            }
            index += 2;
        } else if str_eq(a, "--stability") {
            if index + 1 >= args.len() {
                proof {
                    lemma_scan_error(format, views, host, "missing value after `--stability`"@);
                }
                return Err(error_text("missing value after `--stability`"));
            }
            assert(views[index + 1] == args@[index + 1]@);
            match parse_stability_arg(args[index + 1].as_str()) {
                Ok(s) => stability = s,
                Err(e) => return Err(e),
            }
            index += 2;
        } else if starts_with_dash(a) {
            let mut message = chars_of("unknown flag `");
            push_str_chars(&mut message, a);
            push_str_chars(&mut message, "`");
            return Err(string_from_chars(&message));
        } else {
            if input.is_some() {
                return Err(error_text("expected at most one input file"));
            }
            input = Some(parse_path_arg(a));
            index += 1;
        }
    }
    proof {
        assert(scan_args(views, index as int, ArgState { input: opt_view(input), output: opt_view(output), target, stability })
            == Ok::<ArgState, Seq<char>>(ArgState { input: opt_view(input), output: opt_view(output), target, stability }));
    }
    if format.requires_input() && input.is_none() {
        return Err(error_text("missing input file"));
    }
    if !format.requires_input() && input.is_some() {
        return Err(error_text("`emit abi` does not accept an input file"));
    }
    let target = match target {
        Some(t) => t,
        None => host,
    };
    Ok(ParsedArgs { input, output, target, stability })
}

fn starts_with_dash(s: &str) -> (r: bool)
    ensures
        r == (s@.len() > 0 && s@[0] == '-'),
{
    let chars = chars_of(s);
    chars.len() > 0 && chars[0] == '-'
}

/// The arguments every file-backed command takes: an input, an output and a target.
pub fn parse_common_args(args: &[String], host: Target) -> (r: Result<CommonArgs, String>)
    ensures
        match emit_args(EmitFormat::Asm, arg_views(args@), host) {
            Ok(st) => r is Ok && Some(r->Ok_0.input@) == st.input && opt_view(r->Ok_0.output) == st.output
                && Some(r->Ok_0.target) == st.target,
            Err(m) => r is Err && r->Err_0@ == m,
        },
{
    let parsed = match parse_emit_args(EmitFormat::Asm, args, host) {
        Ok(p) => p,
        Err(e) => return Err(e),
    };
    match parsed.input {
        Some(input) => Ok(CommonArgs { input, output: parsed.output, target: parsed.target }),
        None => Err(error_text("missing input file")),
    }
}

/// The ABI target of a code-generation target.
pub fn abi_target(target: Target) -> (t: AbiTarget)
    ensures
        t == match target.os {
            OperatingSystem::Linux => AbiTarget::LinuxX86_64,
            OperatingSystem::Windows => AbiTarget::WindowsX86_64,
        },
{
    match target.os {
        OperatingSystem::Linux => AbiTarget::LinuxX86_64,
        OperatingSystem::Windows => AbiTarget::WindowsX86_64,
    }
}

/// Where an emit writes when no output is named: beside the input with the format's
/// extension, or `inscribe.mabi` for the ABI header.
pub fn default_output_path(format: EmitFormat, input: Option<&str>, target: Target) -> (r: String)
    requires
        !(format is Abi) ==> input is Some,
    ensures
        format is Abi ==> r@ == "inscribe."@ + extension_of(format),
        !(format is Abi) ==> r@ == with_extension_of(input->Some_0@, extension_of(format)),
{
    match format {
        EmitFormat::Asm => default_assembly_output(input.unwrap()),
        EmitFormat::Abi => {
            let mut text = chars_of("inscribe.");
            push_str_chars(&mut text, format.extension());
            string_from_chars(&text)
        },
        _ => default_text_output(input.unwrap(), format.extension()),
    }
}

pub fn usage() -> (s: &'static str)
    ensures
        s@ == "usage: inscribe emit <asm|hir|mir|dwarf|debug> <input.mtl> [--target <linux-x86_64|windows-x86_64>] [-o <output>]\n       inscribe emit abi [--target <linux-x86_64|windows-x86_64>] [--stability <stable|experimental|internal>] [-o <output.mabi>]"@,
{
    "usage: inscribe emit <asm|hir|mir|dwarf|debug> <input.mtl> [--target <linux-x86_64|windows-x86_64>] [-o <output>]\n       inscribe emit abi [--target <linux-x86_64|windows-x86_64>] [--stability <stable|experimental|internal>] [-o <output.mabi>]"
}

} // verus!
