//! How literals and patterns are written back out in lowered programs.

use vstd::prelude::*;
use crate::ast::{Literal, Path, Pattern, PatternKind};
use crate::text::{owned, push_str_chars, string_from_chars};

verus! {

pub open spec fn literal_text(l: Literal) -> Seq<char> {
    match l {
        Literal::Integer(v) => v@,
        Literal::Float(v) => v@,
        Literal::String(v) => v@,
        Literal::Bool(b) => if b { "true"@ } else { "false"@ },
    }
}

/// The texts joined with `sep` between them.
pub open spec fn joined(parts: Seq<Seq<char>>, sep: Seq<char>) -> Seq<char>
    decreases parts.len(),
{
    if parts.len() == 0 {
        Seq::empty()
    } else if parts.len() == 1 {
        parts[0]
    } else {
        joined(parts.drop_last(), sep) + sep + parts.last()
    }
}

/// A path as its segments joined by `.`.
pub open spec fn path_text(p: Path) -> Seq<char> {
    joined(p.segments@.map_values(|s: String| s@), "."@)
}

/// A pattern as source text; constructor arguments in parentheses, separated by `, `.
pub open spec fn pattern_text(p: Pattern) -> Seq<char>
    decreases p, 0nat,
{
    match p.kind {
        PatternKind::Wildcard => "_"@,
        PatternKind::Binding(name) => name@,
        PatternKind::Literal(l) => literal_text(l),
        PatternKind::Path(path) => path_text(path),
        PatternKind::Constructor { path, arguments } =>
            path_text(path) + "("@ + arguments_text(arguments@, arguments@.len() as int) + ")"@,
    }
}

/// The first `n` arguments as source text, separated by `, `.
pub open spec fn arguments_text(args: Seq<Pattern>, n: int) -> Seq<char>
    decreases args, 1nat, n,
{
    if n <= 0 || n > args.len() {
        Seq::empty()
    } else if n == 1 {
        pattern_text(args[0])
    } else {
        arguments_text(args, n - 1) + ", "@ + pattern_text(args[n - 1])
    }
}

pub fn literal_display(literal: &Literal) -> (s: String)
    ensures
        s@ == literal_text(*literal),
{
    match literal {
        Literal::Integer(v) => owned(v.as_str()),
        Literal::Float(v) => owned(v.as_str()),
        Literal::String(v) => owned(v.as_str()),
        Literal::Bool(b) => if *b { owned("true") } else { owned("false") },
    }
}

fn push_path(out: &mut Vec<char>, path: &Path)
    ensures
        final(out)@ == old(out)@ + path_text(*path),
{
    let ghost parts = path.segments@.map_values(|s: String| s@);
    let mut i: usize = 0;
    while i < path.segments.len()
        invariant
            parts == path.segments@.map_values(|s: String| s@),
            i <= path.segments@.len(),
            out@ == old(out)@ + joined(parts.take(i as int), "."@),
        decreases path.segments@.len() - i,
    {
        if i > 0 {
            push_str_chars(out, ".");
        }
        push_str_chars(out, path.segments[i].as_str());
        proof {
            let next = parts.take(i + 1);
            assert(next.drop_last() =~= parts.take(i as int));
            if i == 0 {
                assert(parts.take(0) =~= Seq::<Seq<char>>::empty());
            }
            assert(out@ =~= old(out)@ + joined(next, "."@));
        }
        i += 1;
    }
    assert(parts.take(i as int) =~= parts);
}

fn push_pattern(out: &mut Vec<char>, pattern: &Pattern)
    ensures
        final(out)@ == old(out)@ + pattern_text(*pattern),
    decreases *pattern, 2nat,
{
    match &pattern.kind {
        PatternKind::Wildcard => push_str_chars(out, "_"),
        PatternKind::Binding(name) => push_str_chars(out, name.as_str()),
        PatternKind::Literal(l) => {
            let text = literal_display(l);
            push_str_chars(out, text.as_str());
        },
        PatternKind::Path(path) => push_path(out, path),
        PatternKind::Constructor { path, arguments } => {
            push_path(out, path);
            push_str_chars(out, "(");
            let ghost start = out@;
            let mut i: usize = 0;
            while i < arguments.len()
                invariant
                    i <= arguments@.len(),
                    pattern.kind == (PatternKind::Constructor { path: *path, arguments: *arguments }),
                    out@ == start + arguments_text(arguments@, i as int),
                decreases arguments@.len() - i,
            {
                if i > 0 {
                    push_str_chars(out, ", ");
                }
                proof {
                    let arg = arguments@[i as int];
                    assert(decreases_to!(*pattern => pattern.kind));
                    assert(*arguments == pattern.kind->arguments);
                    assert(decreases_to!(pattern.kind => pattern.kind->arguments));
                    assert(decreases_to!(*arguments => arguments@));
                    assert(decreases_to!(arguments@ => arg));
                }
                push_pattern(out, &arguments[i]);
                i += 1;
            }
            push_str_chars(out, ")");
        },
    }
}

/// The pattern as source text.
pub fn pattern_display(pattern: &Pattern) -> (s: String)
    ensures
        s@ == pattern_text(*pattern),
{
    let mut out: Vec<char> = Vec::new();
    push_pattern(&mut out, pattern);
    string_from_chars(&out)
}

} // verus!
