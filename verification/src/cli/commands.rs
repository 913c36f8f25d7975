//! The commands of the command line and which one the arguments select.

use vstd::prelude::*;
use crate::text::{chars_of, owned, push_str_chars, str_eq, string_from_chars};

verus! {

/// A command of the command line; its arguments are the ones after its name.
#[derive(Debug, Clone, Copy, PartialEq, Eq, Structural)]
pub enum Command {
    Check,
    Emit,
    Build,
    Run,
}

pub open spec fn usage_text() -> Seq<char> {
    "usage:\n  inscribe check <input.mtl>\n  inscribe emit <asm|hir|mir|mlib|dwarf|debug> <input.mtl> [--target <linux-x86_64|windows-x86_64>] [-o <output>]\n  inscribe emit abi [--target <linux-x86_64|windows-x86_64>] [--stability <stable|experimental|internal>] [-o <output.mabi>]\n  inscribe build <input.mtl> [--sandbox] [--target <linux-x86_64|windows-x86_64>] [-o <output>]\n  inscribe run <input.mtl|input.smtl> [--sandbox]"@
}

/// The help text: one line per command.
pub fn usage() -> (s: String)
    ensures
        s@ == usage_text(),
{
    owned("usage:\n  inscribe check <input.mtl>\n  inscribe emit <asm|hir|mir|mlib|dwarf|debug> <input.mtl> [--target <linux-x86_64|windows-x86_64>] [-o <output>]\n  inscribe emit abi [--target <linux-x86_64|windows-x86_64>] [--stability <stable|experimental|internal>] [-o <output.mabi>]\n  inscribe build <input.mtl> [--sandbox] [--target <linux-x86_64|windows-x86_64>] [-o <output>]\n  inscribe run <input.mtl|input.smtl> [--sandbox]")
}

/// The command a name selects.
pub open spec fn command_named(name: Seq<char>) -> Option<Command> {
    if name == "check"@ { Some(Command::Check) }
    else if name == "emit"@ { Some(Command::Emit) }
    else if name == "build"@ { Some(Command::Build) }
    else if name == "run"@ { Some(Command::Run) }
    else { None }
}

/// The command the first argument selects; the help text when there is none or help is
/// asked for; an error naming an unknown command, followed by the help text.
pub fn dispatch(args: &[String]) -> (r: Result<Command, String>)
    ensures
        args@.len() == 0 ==> r is Err && r->Err_0@ == usage_text(),
        args@.len() > 0 ==> ({
            let name = args@[0]@;
            match command_named(name) {
                Some(c) => r == Ok::<Command, String>(c),
                None => r is Err && if name == "help"@ || name == "--help"@ || name == "-h"@ {
                    r->Err_0@ == usage_text()
                } else {
                    r->Err_0@ == "unknown command `"@ + name + "`\n\n"@ + usage_text()
                },
            }
        }),
{
    if args.len() == 0 {
        return Err(usage());
    }
    let command = args[0].as_str();
    if str_eq(command, "check") {
        Ok(Command::Check)
    } else if str_eq(command, "emit") {
        Ok(Command::Emit)
    } else if str_eq(command, "build") {
        Ok(Command::Build)
    } else if str_eq(command, "run") {
        Ok(Command::Run)
    } else if str_eq(command, "help") || str_eq(command, "--help") || str_eq(command, "-h") {
        Err(usage())
    } else {
        let mut message = chars_of("unknown command `");
        push_str_chars(&mut message, command);
        push_str_chars(&mut message, "`\n\n");
        let help = usage();
        push_str_chars(&mut message, help.as_str());
        Err(string_from_chars(&message))
    }
}

} // verus!
