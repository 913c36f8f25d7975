//! Command-line helpers shared by the commands: targets, output paths and the framing
//! of sandbox modules.

use vstd::prelude::*;
use crate::codegen::{OperatingSystem, Target};
use crate::text::{chars_of, owned, push_str_chars, str_eq, string_from_chars};

verus! {

/// An error of a compiler stage, with the stage's name.
#[derive(Debug, Clone, PartialEq, Eq)]
pub struct SessionError {
    pub stage: String,
    pub message: String,
}

impl SessionError {
    pub fn new(stage: &str, message: &str) -> (e: Self)
        ensures
            e.stage@ == stage@,
            e.message@ == message@,
    {
        SessionError { stage: owned(stage), message: owned(message) }
    }
}

/// The target a name on the command line stands for.
pub open spec fn target_named(name: Seq<char>) -> Option<Target> {
    if name == "linux-x86_64"@ || name == "x86_64-linux"@ {
        Some(Target { arch: crate::codegen::Architecture::X86_64, os: OperatingSystem::Linux })
    } else if name == "windows-x86_64"@ || name == "x86_64-windows"@ || name == "windows"@ {
        Some(Target { arch: crate::codegen::Architecture::X86_64, os: OperatingSystem::Windows })
    } else {
        None
    }
}

pub open spec fn unknown_target_message(name: Seq<char>) -> Seq<char> {
    "unknown target `"@ + name + "`; expected `linux-x86_64` or `windows-x86_64`"@
}

/// The target named on the command line, or `host` when none is named.
pub fn parse_target_arg(maybe_target: Option<&str>, host: Target) -> (r: Result<Target, SessionError>)
    ensures
        maybe_target is None ==> r == Ok::<Target, SessionError>(host),
        maybe_target matches Some(name) ==> match target_named(name@) {
            Some(t) => r == Ok::<Target, SessionError>(t),
            None => r is Err && r->Err_0.stage@ == "cli"@ && r->Err_0.message@ == unknown_target_message(name@),
        },
{
    match maybe_target {
        None => Ok(host),
        Some(name) => {
            if str_eq(name, "linux-x86_64") || str_eq(name, "x86_64-linux") {
                Ok(Target::linux_x86_64())
            } else if str_eq(name, "windows-x86_64") || str_eq(name, "x86_64-windows") || str_eq(name, "windows") {
                Ok(Target::windows_x86_64())
            } else {
                let mut message = chars_of("unknown target `");
                push_str_chars(&mut message, name);
                push_str_chars(&mut message, "`; expected `linux-x86_64` or `windows-x86_64`");
                Err(SessionError { stage: owned("cli"), message: string_from_chars(&message) })
            }
        },
    }
}

/// The index just after the last `/` in the text, or zero.
pub open spec fn name_start(path: Seq<char>) -> int
    decreases path.len(),
{
    if path.len() == 0 {
        0
    } else if path.last() == '/' {
        path.len() as int
    } else {
        name_start(path.drop_last())
    }
}

/// The path without the slashes it ends with.
pub open spec fn trim_slashes(path: Seq<char>) -> Seq<char>
    decreases path.len(),
{
    if path.len() > 0 && path.last() == '/' {
        trim_slashes(path.drop_last())
    } else {
        path
    }
}

/// The index of the last `.` in the text, if any.
pub open spec fn last_dot(s: Seq<char>) -> Option<int>
    decreases s.len(),
{
    if s.len() == 0 {
        None
    } else if s.last() == '.' {
        Some(s.len() - 1)
    } else {
        last_dot(s.drop_last())
    }
}

pub(crate) proof fn lemma_last_dot_in_range(s: Seq<char>)
    ensures
        last_dot(s) matches Some(d) ==> 0 <= d < s.len(),
    decreases s.len(),
{
    if s.len() > 0 && s.last() != '.' {
        lemma_last_dot_in_range(s.drop_last());
    }
}

/// The file name without its extension: everything before the last `.`, unless that dot
/// starts the name.
pub open spec fn file_stem_of(name: Seq<char>) -> Seq<char> {
    match last_dot(name) {
        Some(d) => if d > 0 { name.take(d) } else { name },
        None => name,
    }
}

/// The path with its file name's extension replaced by `extension`, as
/// `Path::with_extension` does: trailing slashes go, and a path without a file name
/// (empty, `.` or `..`) stays as it is.
pub open spec fn with_extension_of(path: Seq<char>, extension: Seq<char>) -> Seq<char> {
    let trimmed = trim_slashes(path);
    let start = name_start(trimmed);
    let name = trimmed.skip(start);
    if name.len() == 0 || name == "."@ || name == ".."@ {
        path
    } else {
        trimmed.take(start) + file_stem_of(name) + if extension.len() > 0 { seq!['.'] + extension } else { Seq::empty() }
    }
}

/// Where the path ends once the slashes it ends with are dropped.
pub(crate) fn trimmed_end(chars: &Vec<char>) -> (end: usize)
    ensures
        end <= chars@.len(),
        chars@.take(end as int) == trim_slashes(chars@),
{
    let mut end = chars.len();
    assert(chars@.take(end as int) =~= chars@);
    while end > 0 && chars[end - 1] == '/'
        invariant
            end <= chars@.len(),
            trim_slashes(chars@) == trim_slashes(chars@.take(end as int)),
        decreases end,
    {
        assert(chars@.take(end - 1) =~= chars@.take(end as int).drop_last());
        end -= 1;
    }
    end
}

/// Where the file name starts in the first `end` characters.
pub(crate) fn file_name_start(chars: &Vec<char>, end: usize) -> (start: usize)
    requires
        end <= chars@.len(),
    ensures
        start <= end,
        start == name_start(chars@.take(end as int)),
{
    let ghost whole = chars@.take(end as int);
    let mut start = end;
    assert(whole.take(start as int) =~= whole);
    while start > 0 && chars[start - 1] != '/'
        invariant
            start <= end <= chars@.len(),
            whole == chars@.take(end as int),
            name_start(whole) == name_start(whole.take(start as int)),
        decreases start,
    {
        assert(whole.take(start - 1) =~= whole.take(start as int).drop_last());
        start -= 1;
    }
    proof {
        if start > 0 {
            assert(whole.take(start as int).last() == '/');
        }
    }
    start
}

/// Where the last dot between `start` and `end` is.
pub(crate) fn last_dot_index(chars: &Vec<char>, start: usize, end: usize) -> (r: Option<usize>)
    requires
        start <= end <= chars@.len(),
    ensures
        r == match last_dot(chars@.subrange(start as int, end as int)) {
            Some(d) => Some((start + d) as usize),
            None => None::<usize>,
        },
{
    let ghost name = chars@.subrange(start as int, end as int);
    let mut dot = end;
    assert(name.take(dot - start) =~= name);
    while dot > start
        invariant
            start <= dot <= end <= chars@.len(),
            name == chars@.subrange(start as int, end as int),
            last_dot(name) == last_dot(name.take(dot - start)),
        decreases dot,
    {
        if chars[dot - 1] == '.' {
            proof {
                assert(name.take(dot - start).last() == '.');
            }
            return Some(dot - 1);
        }
        assert(name.take(dot - start - 1) =~= name.take(dot - start).drop_last());
        dot -= 1;
    }
    None
}

/// Replaces the extension of the path's file name.
pub fn with_extension(path: &str, extension: &str) -> (r: String)
    ensures
        r@ == with_extension_of(path@, extension@),
{
    proof {
        reveal_strlit(".");
        reveal_strlit("..");
    }
    let chars = chars_of(path);
    let end = trimmed_end(&chars);
    let start = file_name_start(&chars, end);
    let ghost trimmed = chars@.take(end as int);
    let ghost name = trimmed.skip(start as int);
    assert(name =~= chars@.subrange(start as int, end as int));
    let name_len = end - start;
    let is_dot = name_len == 1 && chars[start] == '.';
    let is_dot_dot = name_len == 2 && chars[start] == '.' && chars[start + 1] == '.';
    proof {
        if name_len == 1 && chars[start as int] == '.' {
            assert(name =~= "."@);
        }
        if name_len == 2 && chars[start as int] == '.' && chars[start + 1] == '.' {
            assert(name =~= ".."@);
        }
        if !is_dot && name_len == 1 {
            assert(name[0] != "."@[0]);
        }
        if !is_dot_dot && name_len == 2 {
            assert(name[0] != ".."@[0] || name[1] != ".."@[1]);
        }
    }
    if name_len == 0 || is_dot || is_dot_dot {
        return owned(path);
    }
    proof {
        lemma_last_dot_in_range(name);
    }
    let stem_end = match last_dot_index(&chars, start, end) {
        Some(d) => if d > start { d } else { end },
        None => end,
    };
    let mut out: Vec<char> = Vec::new();
    let mut i: usize = 0;
    while i < stem_end
        invariant
            i <= stem_end <= chars@.len(),
            out@ == chars@.take(i as int),
        decreases stem_end - i,
    {
        out.push(chars[i]);
        assert(chars@.take(i + 1) =~= chars@.take(i as int).push(chars@[i as int]));
        i += 1;
    }
    let ext = chars_of(extension);
    if ext.len() > 0 {
        out.push('.');
        push_str_chars(&mut out, extension);
    }
    proof {
        let stem = file_stem_of(name);
        assert(chars@.take(stem_end as int) =~= trimmed.take(start as int) + stem);
        assert(out@ =~= trimmed.take(start as int) + stem + if extension@.len() > 0 { seq!['.'] + extension@ } else { Seq::<char>::empty() });
    }
    string_from_chars(&out)
}

pub fn default_assembly_output(input: &str) -> (r: String)
    ensures
        r@ == with_extension_of(input@, "asm"@),
{
    with_extension(input, "asm")
}

pub fn default_text_output(input: &str, extension: &str) -> (r: String)
    ensures
        r@ == with_extension_of(input@, extension@),
{
    with_extension(input, extension)
}

pub fn default_executable_output(input: &str, target: Target) -> (r: String)
    ensures
        r@ == with_extension_of(input@, match target.os {
            OperatingSystem::Linux => "elf"@,
            OperatingSystem::Windows => "exe"@,
        }),
{
    with_extension(input, target.executable_extension())
}

pub fn default_sandbox_output(input: &str) -> (r: String)
    ensures
        r@ == with_extension_of(input@, "smtl"@),
{
    with_extension(input, "smtl")
}

/// A path given on the command line, as it was given.
pub fn parse_path_arg(value: &str) -> (r: String)
    ensures
        r@ == value@,
{
    owned(value)
}

/// The bytes that start a sandbox module: `SMTL1`.
pub open spec fn smtl_magic() -> Seq<u8> {
    seq![0x53u8, 0x4Du8, 0x54u8, 0x4Cu8, 0x31u8]
}

/// A sandbox module: the magic, then the encoded program.
pub fn frame_sandbox_module(encoded: &[u8]) -> (r: Vec<u8>)
    ensures
        r@ == smtl_magic() + encoded@,
{
    let mut bytes: Vec<u8> = vec![0x53, 0x4D, 0x54, 0x4C, 0x31];
    crate::bytes::extend_bytes(&mut bytes, encoded);
    assert(bytes@ =~= smtl_magic() + encoded@);
    bytes
}

/// The encoded program of a sandbox module, when the bytes start with the magic.
pub fn sandbox_payload(bytes: &[u8]) -> (r: Result<Vec<u8>, SessionError>)
    ensures
        r is Ok <==> (bytes@.len() >= 5 && bytes@.take(5) == smtl_magic()),
        r matches Ok(p) ==> p@ == bytes@.skip(5),
        r matches Err(e) ==> e.stage@ == "io"@ && e.message@ == "invalid .smtl file: missing SMTL1 header"@,
{
    if bytes.len() < 5 || bytes[0] != 0x53 || bytes[1] != 0x4D || bytes[2] != 0x54 || bytes[3] != 0x4C || bytes[4] != 0x31 {
        proof {
            if bytes@.len() >= 5 && bytes@.take(5) == smtl_magic() {
                assert(bytes@.take(5)[0] == bytes@[0]);
                assert(bytes@.take(5)[1] == bytes@[1]);
                assert(bytes@.take(5)[2] == bytes@[2]);
                assert(bytes@.take(5)[3] == bytes@[3]);
                assert(bytes@.take(5)[4] == bytes@[4]);
            }
        }
        return Err(SessionError::new("io", "invalid .smtl file: missing SMTL1 header"));
    }
    assert(bytes@.take(5) =~= smtl_magic());
    let mut payload: Vec<u8> = Vec::new();
    let mut i: usize = 5;
    while i < bytes.len()
        invariant
            5 <= i <= bytes@.len(),
            payload@ == bytes@.subrange(5, i as int),
        decreases bytes@.len() - i,
    {
        payload.push(bytes[i]);
        assert(bytes@.subrange(5, i + 1) =~= bytes@.subrange(5, i as int).push(bytes@[i as int]));
        i += 1;
    }
    Ok(payload)
}

} // verus!
