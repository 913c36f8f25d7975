//! The arguments of `inscribe run` and `inscribe build`, and the choices they make.

use vstd::prelude::*;
use crate::codegen::Target;
use crate::text::{
    chars_of, contains_text, eq_ignore_ascii_case_spec, owned, push_str_chars, str_contains, str_eq,
    str_eq_ignore_ascii_case, string_from_chars,
};
use super::emit::opt_view;
use super::session::{
    file_name_start, last_dot, last_dot_index, lemma_last_dot_in_range, name_start, parse_path_arg, parse_target_arg,
    target_named, trim_slashes, trimmed_end, unknown_target_message,
};

verus! {

/// What `inscribe run` was asked to do.
#[derive(Debug)]
pub struct RunArgs {
    pub input: String,
    pub sandbox: bool,
    pub allow_stdin: bool,
    pub allow_network: bool,
}

pub open spec fn run_usage() -> Seq<char> {
    "usage: inscribe run <input.mtl|input.smtl> [--sandbox] [--allow-stdin] [--allow-network]"@
}

/// The flags and input read from the arguments from index `i` on.
pub ghost struct RunState {
    pub input: Option<Seq<char>>,
    pub sandbox: bool,
    pub allow_stdin: bool,
    pub allow_network: bool,
}

/// Reads `inscribe run` arguments: allowing stdin or the network implies the sandbox.
pub open spec fn scan_run(args: Seq<Seq<char>>, i: int, st: RunState) -> Result<RunState, Seq<char>>
    decreases args.len() - i,
{
    if i < 0 || i >= args.len() {
        Ok(st)
    } else {
        let a = args[i];
        if a == "--sandbox"@ {
            scan_run(args, i + 1, RunState { sandbox: true, ..st })
        } else if a == "--allow-stdin"@ {
            scan_run(args, i + 1, RunState { sandbox: true, allow_stdin: true, ..st })
        } else if a == "--allow-network"@ {
            scan_run(args, i + 1, RunState { sandbox: true, allow_network: true, ..st })
        } else if a.len() > 0 && a[0] == '-' {
            Err("unknown flag `"@ + a + "`"@)
        } else if st.input is Some {
            Err("expected a single input file"@)
        } else {
            scan_run(args, i + 1, RunState { input: Some(a), ..st })
        }
    }
}

pub open spec fn run_args(args: Seq<Seq<char>>) -> Result<RunState, Seq<char>> {
    match scan_run(args, 0, RunState { input: None, sandbox: false, allow_stdin: false, allow_network: false }) {
        Err(m) => Err(m),
        Ok(st) => if st.input is None { Err(run_usage()) } else { Ok(st) },
    }
}

fn starts_with_dash(s: &str) -> (r: bool)
    ensures
        r == (s@.len() > 0 && s@[0] == '-'),
{
    let chars = chars_of(s);
    chars.len() > 0 && chars[0] == '-'
}

pub fn parse_run_args(args: &[String]) -> (r: Result<RunArgs, String>)
    ensures
        match run_args(args@.map_values(|s: String| s@)) {
            Ok(st) => r is Ok && Some(r->Ok_0.input@) == st.input && r->Ok_0.sandbox == st.sandbox
                && r->Ok_0.allow_stdin == st.allow_stdin && r->Ok_0.allow_network == st.allow_network,
            Err(m) => r is Err && r->Err_0@ == m,
        },
{
    let ghost views = args@.map_values(|s: String| s@);
    let mut input: Option<String> = None;
    let mut sandbox = false;
    let mut allow_stdin = false;
    let mut allow_network = false;
    let mut i: usize = 0;
    while i < args.len()
        invariant
            views == args@.map_values(|s: String| s@),
            i <= args@.len(),
            scan_run(views, 0, RunState { input: None, sandbox: false, allow_stdin: false, allow_network: false })
                == scan_run(views, i as int, RunState { input: opt_view(input), sandbox, allow_stdin, allow_network }),
        decreases args@.len() - i,
    {
        let a = args[i].as_str();
        assert(views[i as int] == a@);
        if str_eq(a, "--sandbox") {
            sandbox = true;
        } else if str_eq(a, "--allow-stdin") {
            sandbox = true;
            allow_stdin = true;
        } else if str_eq(a, "--allow-network") {
            sandbox = true;
            allow_network = true;
        } else if starts_with_dash(a) {
            let mut message = chars_of("unknown flag `");
            push_str_chars(&mut message, a);
            push_str_chars(&mut message, "`");
            return Err(string_from_chars(&message));
        } else {
            if input.is_some() {
                return Err(owned("expected a single input file"));
            }
            input = Some(parse_path_arg(a));
        }
        i += 1;
    }
    match input {
        Some(input) => Ok(RunArgs { input, sandbox, allow_stdin, allow_network }),
        None => Err(owned("usage: inscribe run <input.mtl|input.smtl> [--sandbox] [--allow-stdin] [--allow-network]")),
    }
}

/// The extension of the path's file name, as `Path::extension` gives it: what follows the
/// last `.`, unless that dot starts the name.
pub open spec fn extension_text(path: Seq<char>) -> Option<Seq<char>> {
    let trimmed = trim_slashes(path);
    let name = trimmed.skip(name_start(trimmed));
    if name.len() == 0 || name == "."@ || name == ".."@ {
        None
    } else {
        match last_dot(name) {
            Some(d) => if d > 0 { Some(name.skip(d + 1)) } else { None },
            None => None,
        }
    }
}

/// The extension of the path's file name.
pub fn path_extension(path: &str) -> (r: Option<String>)
    ensures
        opt_view(r) == extension_text(path@),
{
    proof {
        reveal_strlit(".");
        reveal_strlit("..");
    }
    let chars = chars_of(path);
    let end = trimmed_end(&chars);
    let start = file_name_start(&chars, end);
    let ghost trimmed = chars@.take(end as int);
    let ghost name = trimmed.skip(start as int);
    assert(name =~= chars@.subrange(start as int, end as int));
    let name_len = end - start;
    let is_dot = name_len == 1 && chars[start] == '.';
    let is_dot_dot = name_len == 2 && chars[start] == '.' && chars[start + 1] == '.';
    proof {
        if name_len == 1 && chars[start as int] == '.' {
            assert(name =~= "."@);
        }
        if name_len == 2 && chars[start as int] == '.' && chars[start + 1] == '.' {
            assert(name =~= ".."@);
        }
        if !is_dot && name_len == 1 {
            assert(name[0] != "."@[0]);
        }
        if !is_dot_dot && name_len == 2 {
            assert(name[0] != ".."@[0] || name[1] != ".."@[1]);
        }
        lemma_last_dot_in_range(name);
    }
    if name_len == 0 || is_dot || is_dot_dot {
        return None;
    }
    match last_dot_index(&chars, start, end) {
        Some(d) => {
            if d > start {
                let mut ext: Vec<char> = Vec::new();
                let mut k: usize = d + 1;
                while k < end
                    invariant
                        d + 1 <= k <= end <= chars@.len(),
                        ext@ == chars@.subrange(d + 1, k as int),
                    decreases end - k,
                {
                    ext.push(chars[k]);
                    assert(chars@.subrange(d + 1, k + 1) =~= chars@.subrange(d + 1, k as int).push(chars@[k as int]));
                    k += 1;
                }
                proof {
                    assert(name.skip(d - start + 1) =~= chars@.subrange(d + 1, end as int));
                }
                Some(string_from_chars(&ext))
            } else {
                None
            }
        },
        None => None,
    }
}

/// Whether the path names a sandbox module: its extension is `smtl` in any case.
pub fn is_sandbox_module_path(path: &str) -> (r: bool)
    ensures
        r == (extension_text(path@) matches Some(e) && eq_ignore_ascii_case_spec(e, "smtl"@)),
{
    match path_extension(path) {
        Some(e) => str_eq_ignore_ascii_case(e.as_str(), "smtl"),
        None => false,
    }
}

/// Whether a native code generation error says the program uses something the native
/// back end lacks, so that running it in the sandbox is the way out.
pub open spec fn is_unsupported_native(message: Seq<char>) -> bool {
    ||| contains_text(message, "native codegen does not yet support"@)
    ||| contains_text(message, "native codegen does not yet implement"@)
    ||| contains_text(message, "native codegen currently only supports"@)
}

pub fn should_fallback_to_sandbox(message: &str) -> (r: bool)
    ensures
        r == is_unsupported_native(message@),
{
    str_contains(message, "native codegen does not yet support")
        || str_contains(message, "native codegen does not yet implement")
        || str_contains(message, "native codegen currently only supports")
}

/// The message for a native build that failed: with a hint at the sandbox when the
/// native back end lacks something the program uses.
pub fn format_build_codegen_error(message: &str) -> (r: String)
    ensures
        is_unsupported_native(message@) ==> r@ == message@
            + "\nHint: use `inscribe run --sandbox <input.mtl>` to execute immediately, or `inscribe build --sandbox <input.mtl>` to write a portable `.smtl` artifact."@,
        !is_unsupported_native(message@) ==> r@ == message@,
{
    if should_fallback_to_sandbox(message) {
        let mut text = chars_of(message);
        push_str_chars(&mut text, "\nHint: use `inscribe run --sandbox <input.mtl>` to execute immediately, or `inscribe build --sandbox <input.mtl>` to write a portable `.smtl` artifact.");
        string_from_chars(&text)
    } else {
        owned(message)
    }
}

/// What `inscribe build` was asked to do.
#[derive(Debug)]
pub struct BuildArgs {
    pub input: String,
    pub output: Option<String>,
    pub target: Target,
    pub sandbox: bool,
}

pub ghost struct BuildState {
    pub input: Option<Seq<char>>,
    pub output: Option<Seq<char>>,
    pub target: Option<Target>,
    pub sandbox: bool,
}

pub open spec fn build_usage() -> Seq<char> {
    "usage: inscribe build <input.mtl> [--sandbox] [--target <linux-x86_64|windows-x86_64>] [-o <output>]"@
}

/// Reads `inscribe build` arguments from index `i` on.
pub open spec fn scan_build(args: Seq<Seq<char>>, i: int, st: BuildState) -> Result<BuildState, Seq<char>>
    decreases args.len() - i,
{
    if i < 0 || i >= args.len() {
        Ok(st)
    } else {
        let a = args[i];
        if a == "--sandbox"@ {
            scan_build(args, i + 1, BuildState { sandbox: true, ..st })
        } else if a == "-o"@ || a == "--output"@ {
            if i + 1 >= args.len() {
                Err("missing value after `-o`"@)
            } else {
                scan_build(args, i + 2, BuildState { output: Some(args[i + 1]), ..st })
            }
        } else if a == "--target"@ {
            if i + 1 >= args.len() {
                Err("missing value after `--target`"@)
            } else {
                match target_named(args[i + 1]) {
                    Some(t) => scan_build(args, i + 2, BuildState { target: Some(t), ..st }),
                    None => Err(unknown_target_message(args[i + 1])),
                }
            }
        } else if a.len() > 0 && a[0] == '-' {
            Err("unknown flag `"@ + a + "`"@)
        } else if st.input is Some {
            Err("expected a single input file"@)
        } else {
            scan_build(args, i + 1, BuildState { input: Some(a), ..st })
        }
    }
}

pub open spec fn initial_build() -> BuildState {
    BuildState { input: None, output: None, target: None, sandbox: false }
}

/// The outcome of reading `inscribe build` arguments, with `host` as the target when none
/// is named.
pub open spec fn build_args(args: Seq<Seq<char>>, host: Target) -> Result<BuildState, Seq<char>> {
    match scan_build(args, 0, initial_build()) {
        Err(m) => Err(m),
        Ok(st) => if st.input is None {
            Err(build_usage())
        } else {
            Ok(BuildState { target: Some(match st.target { Some(t) => t, None => host }), ..st })
        },
    }
}

pub fn parse_build_args(args: &[String], host: Target) -> (r: Result<BuildArgs, String>)
    ensures
        match build_args(args@.map_values(|s: String| s@), host) {
            Ok(st) => r is Ok && Some(r->Ok_0.input@) == st.input && opt_view(r->Ok_0.output) == st.output
                && Some(r->Ok_0.target) == st.target && r->Ok_0.sandbox == st.sandbox,
            Err(m) => r is Err && r->Err_0@ == m,
        },
{
    let ghost views = args@.map_values(|s: String| s@);
    let mut input: Option<String> = None;
    let mut output: Option<String> = None;
    let mut target: Option<Target> = None;
    let mut sandbox = false;
    let mut index: usize = 0;
    while index < args.len()
        invariant
            views == args@.map_values(|s: String| s@),
            index <= args@.len() + 1,
            scan_build(views, 0, initial_build()) == scan_build(views, index as int,
                BuildState { input: opt_view(input), output: opt_view(output), target, sandbox }),
        decreases args@.len() + 1 - index,
    {
        let a = args[index].as_str();
        assert(views[index as int] == a@);
        if str_eq(a, "--sandbox") {
            sandbox = true;
            index += 1;
        } else if str_eq(a, "-o") || str_eq(a, "--output") {
            if index + 1 >= args.len() {
                return Err(owned("missing value after `-o`"));
            }
            assert(views[index + 1] == args@[index + 1]@);
            output = Some(parse_path_arg(args[index + 1].as_str()));
            index += 2;
        } else if str_eq(a, "--target") {
            if index + 1 >= args.len() {
                return Err(owned("missing value after `--target`"));
            }
            assert(views[index + 1] == args@[index + 1]@);
            match parse_target_arg(Some(args[index + 1].as_str()), host) {
                Ok(t) => target = Some(t),
                Err(e) => return Err(e.message),
            }
            index += 2;
        } else if starts_with_dash(a) {
            let mut message = chars_of("unknown flag `");
            push_str_chars(&mut message, a);
            push_str_chars(&mut message, "`");
            return Err(string_from_chars(&message));
        } else {
            if input.is_some() {
                return Err(owned("expected a single input file"));
            }
            input = Some(parse_path_arg(a));
            index += 1;
        }
    }
    let target = match target {
        Some(t) => t,
        None => host,
    };
    match input {
        Some(input) => Ok(BuildArgs { input, output, target, sandbox }),
        None => Err(owned("usage: inscribe build <input.mtl> [--sandbox] [--target <linux-x86_64|windows-x86_64>] [-o <output>]")),
    }
}

} // verus!
