//! Compile-time evaluation: its errors and settings, the reflection records it hands
//! out, and the reading of constructor patterns.

use vstd::prelude::*;
use crate::mir::nodes::{callable_name, callable_text};
use crate::mir::determinism::{callable_names, find_last, last_index, names_of};
use crate::mir::{LocalDecl, LocalId, MirFunction, MirProgram};
use crate::types::type_text;
use crate::text::{chars_of, owned, push_str_chars, string_from_chars};

verus! {

#[derive(Debug, Clone, PartialEq, Eq)]
pub struct ComptimeError {
    pub message: String,
}

impl ComptimeError {
    pub fn new(message: &str) -> (e: Self)
        ensures
            e.message@ == message@,
    {
        ComptimeError { message: owned(message) }
    }
}

/// The rest of a range being iterated: from `next` up to, not including, `end`.
#[derive(Debug, Clone, Copy, PartialEq, Eq, Structural)]
pub struct RangeValue {
    pub next: i64,
    pub end: i64,
}

/// Limits on a compile-time evaluation.
#[derive(Debug, Clone, Copy, PartialEq, Eq, Structural)]
pub struct InterpreterConfig {
    pub max_steps: usize,
    pub max_call_depth: usize,
}

impl Default for InterpreterConfig {
    /// A hundred thousand steps and calls nested 128 deep.
    fn default() -> (c: Self)
        ensures
            c == (InterpreterConfig { max_steps: 100_000, max_call_depth: 128 }),
    {
        InterpreterConfig { max_steps: 100_000, max_call_depth: 128 }
    }
}

#[derive(Debug, Clone, PartialEq, Eq)]
pub struct FunctionReflection {
    pub qualified_name: String,
    pub param_count: usize,
    pub return_type: String,
    pub local_count: usize,
    pub block_count: usize,
    pub is_declaration: bool,
}

#[derive(Debug, Clone, PartialEq, Eq)]
pub struct LocalReflection {
    pub id: LocalId,
    pub name: String,
    pub ty: String,
    pub mutable: bool,
    pub temp: bool,
}

/// The name a function is called by: `receiver.name` for methods.
pub fn qualified_function_name(function: &MirFunction) -> (s: String)
    ensures
        s@ == callable_text(*function),
{
    callable_name(function)
}

/// Whether the character is white space, as `char::is_whitespace` tells: the Unicode
/// `White_Space` property.
pub open spec fn is_space(c: char) -> bool {
    ||| '\t' <= c <= '\r'
    ||| c == ' '
    ||| c == '\u{85}'
    ||| c == '\u{a0}'
    ||| c == '\u{1680}'
    ||| '\u{2000}' <= c <= '\u{200a}'
    ||| c == '\u{2028}'
    ||| c == '\u{2029}'
    ||| c == '\u{202f}'
    ||| c == '\u{205f}'
    ||| c == '\u{3000}'
}

pub fn is_whitespace(c: char) -> (r: bool)
    ensures
        r == is_space(c),
{
    ('\t' <= c && c <= '\r') || c == ' ' || c == '\u{85}' || c == '\u{a0}' || c == '\u{1680}'
        || ('\u{2000}' <= c && c <= '\u{200a}') || c == '\u{2028}' || c == '\u{2029}' || c == '\u{202f}'
        || c == '\u{205f}' || c == '\u{3000}'
}

/// How many characters at the start are white space.
pub open spec fn leading_space(s: Seq<char>) -> nat
    decreases s.len(),
{
    if s.len() > 0 && is_space(s[0]) { 1 + leading_space(s.drop_first()) } else { 0 }
}

/// How many characters at the end are white space.
pub open spec fn trailing_space(s: Seq<char>) -> nat
    decreases s.len(),
{
    if s.len() > 0 && is_space(s.last()) { 1 + trailing_space(s.drop_last()) } else { 0 }
}

/// The text without white space at either end.
pub open spec fn trimmed(s: Seq<char>) -> Seq<char> {
    let t = s.skip(leading_space(s) as int);
    t.take(t.len() - trailing_space(t))
}

/// The pieces between the commas, as `str::split(',')` gives them.
pub open spec fn comma_pieces(s: Seq<char>) -> Seq<Seq<char>>
    decreases s.len(),
{
    if s.len() == 0 {
        seq![Seq::empty()]
    } else {
        let p = comma_pieces(s.drop_last());
        if s.last() == ',' {
            p.push(Seq::empty())
        } else {
            p.update(p.len() - 1, p.last().push(s.last()))
        }
    }
}

/// The index of the first occurrence of `c`.
pub open spec fn first_index_of(s: Seq<char>, c: char) -> Option<int>
    decreases s.len(),
{
    if s.len() == 0 {
        None
    } else if s[0] == c {
        Some(0)
    } else {
        match first_index_of(s.drop_first(), c) {
            Some(i) => Some(i + 1),
            None => None,
        }
    }
}

/// A constructor pattern `Head(a, b, ...)`: the trimmed head and the trimmed arguments,
/// none when the text between the parentheses is blank.
pub open spec fn constructor_parts(p: Seq<char>) -> Option<(Seq<char>, Seq<Seq<char>>)> {
    match first_index_of(p, '(') {
        None => None,
        Some(open) => if p.len() == 0 || p.last() != ')' {
            None
        } else {
            let inner = p.subrange(open + 1, p.len() - 1);
            Some((
                trimmed(p.take(open)),
                if trimmed(inner).len() == 0 {
                    Seq::empty()
                } else {
                    comma_pieces(inner).map_values(|piece: Seq<char>| trimmed(piece))
                },
            ))
        },
    }
}

proof fn lemma_leading_space_bound(s: Seq<char>)
    ensures
        leading_space(s) <= s.len(),
    decreases s.len(),
{
    if s.len() > 0 && is_space(s[0]) {
        lemma_leading_space_bound(s.drop_first());
    }
}

proof fn lemma_trailing_space_bound(s: Seq<char>)
    ensures
        trailing_space(s) <= s.len(),
    decreases s.len(),
{
    if s.len() > 0 && is_space(s.last()) {
        lemma_trailing_space_bound(s.drop_last());
    }
}

/// The characters of `chars` between `from` and `to`, without white space at either end.
fn trim_range(chars: &Vec<char>, from: usize, to: usize) -> (r: Vec<char>)
    requires
        from <= to <= chars@.len(),
    ensures
        r@ == trimmed(chars@.subrange(from as int, to as int)),
{
    let ghost s = chars@.subrange(from as int, to as int);
    let mut start: usize = from;
    while start < to && is_whitespace(chars[start])
        invariant
            from <= start <= to <= chars@.len(),
            s == chars@.subrange(from as int, to as int),
            leading_space(s) == (start - from) + leading_space(chars@.subrange(start as int, to as int)),
        decreases to - start,
    {
        assert(chars@.subrange(start + 1, to as int) =~= chars@.subrange(start as int, to as int).drop_first());
        start += 1;
    }
    let ghost t = chars@.subrange(start as int, to as int);
    proof {
        assert(s.skip(leading_space(s) as int) =~= t);
    }
    let mut end: usize = to;
    assert(t.take(t.len() as int) =~= t);
    while end > start && is_whitespace(chars[end - 1])
        invariant
            from <= start <= end <= to <= chars@.len(),
            t == chars@.subrange(start as int, to as int),
            trailing_space(t) == (to - end) + trailing_space(chars@.subrange(start as int, end as int)),
        decreases end - start,
    {
        assert(chars@.subrange(start as int, end - 1) =~= chars@.subrange(start as int, end as int).drop_last());
        end -= 1;
    }
    let mut r: Vec<char> = Vec::new();
    let mut k: usize = start;
    while k < end
        invariant
            start <= k <= end <= chars@.len(),
            r@ == chars@.subrange(start as int, k as int),
        decreases end - k,
    {
        r.push(chars[k]);
        assert(chars@.subrange(start as int, k + 1) =~= chars@.subrange(start as int, k as int).push(chars@[k as int]));
        k += 1;
    }
    proof {
        assert(t.take(t.len() - trailing_space(t)) =~= chars@.subrange(start as int, end as int));
    }
    r
}

/// Splits a constructor pattern `Head(a, b, ...)` into its trimmed head and trimmed
/// arguments; none when there is no `(` or the text does not end with `)`.
pub fn split_constructor_pattern(pattern: &str) -> (r: Option<(String, Vec<String>)>)
    ensures
        match constructor_parts(pattern@) {
            None => r is None,
            Some((head, args)) => r is Some && r->Some_0.0@ == head
                && r->Some_0.1@.map_values(|a: String| a@) == args,
        },
{
    let chars = chars_of(pattern);
    let n = chars.len();
    let mut open: usize = 0;
    assert(pattern@.skip(0) =~= pattern@);
    while open < n && chars[open] != '('
        invariant
            chars@ == pattern@,
            n == chars@.len(),
            open <= n,
            first_index_of(pattern@, '(') == match first_index_of(pattern@.skip(open as int), '(') {
                Some(i) => Some(i + open),
                None => None,
            },
        decreases n - open,
    {
        assert(pattern@.skip(open + 1) =~= pattern@.skip(open as int).drop_first());
        assert(pattern@.skip(open as int)[0] == chars@[open as int]);
        open += 1;
    }
    if open == n {
        proof {
            assert(pattern@.skip(open as int).len() == 0);
        }
        return None;
    }
    if chars[n - 1] != ')' {
        return None;
    }
    let head = trim_range(&chars, 0, open);
    assert(chars@.subrange(0, open as int) =~= pattern@.take(open as int));
    let inner_start = open + 1;
    let inner_end = n - 1;
    let ghost inner = pattern@.subrange(inner_start as int, inner_end as int);
    let whole = trim_range(&chars, inner_start, inner_end);
    let mut args: Vec<String> = Vec::new();
    if whole.len() > 0 {
        // The pieces between commas, trimmed, collected from the front.
        let mut piece_start: usize = inner_start;
        let mut k: usize = inner_start;
        let ghost mut done: Seq<Seq<char>> = Seq::empty();
        assert(chars@.subrange(inner_start as int, k as int) =~= Seq::<char>::empty());
        assert(chars@.subrange(piece_start as int, k as int) =~= Seq::<char>::empty());
        assert(comma_pieces(Seq::<char>::empty()) =~= done.push(Seq::<char>::empty()));
        while k < inner_end
            invariant
                inner_start <= piece_start <= k <= inner_end < n == chars@.len(),
                chars@ == pattern@,
                inner == chars@.subrange(inner_start as int, inner_end as int),
                comma_pieces(chars@.subrange(inner_start as int, k as int))
                    == done.push(chars@.subrange(piece_start as int, k as int)),
                args@.map_values(|a: String| a@) == done.map_values(|piece: Seq<char>| trimmed(piece)),
            decreases inner_end - k,
        {
            let ghost before = chars@.subrange(inner_start as int, k as int);
            let ghost after = chars@.subrange(inner_start as int, k + 1);
            assert(after.drop_last() =~= before);
            if chars[k] == ',' {
                let piece = trim_range(&chars, piece_start, k);
                let text = string_from_chars(&piece);
                let ghost old_args = args@;
                args.push(text);
                proof {
                    assert(args@.map_values(|a: String| a@) =~= old_args.map_values(|a: String| a@).push(text@));
                    done = done.push(chars@.subrange(piece_start as int, k as int));
                    assert(args@.map_values(|a: String| a@) =~= done.map_values(|piece: Seq<char>| trimmed(piece)));
                    assert(chars@.subrange((k + 1) as int, (k + 1) as int) =~= Seq::<char>::empty());
                    assert(comma_pieces(after) =~= done.push(chars@.subrange((k + 1) as int, (k + 1) as int)));
                }
                piece_start = k + 1;
            } else {
                proof {
                    assert(chars@.subrange(piece_start as int, k + 1)
                        =~= chars@.subrange(piece_start as int, k as int).push(chars@[k as int]));
                    assert(comma_pieces(after) =~= done.push(chars@.subrange(piece_start as int, k + 1)));
                }
            }
            k += 1;
        }
        let piece = trim_range(&chars, piece_start, inner_end);
        let text = string_from_chars(&piece);
        let ghost old_args = args@;
        args.push(text);
        proof {
            assert(args@.map_values(|a: String| a@) =~= old_args.map_values(|a: String| a@).push(text@));
            assert(chars@.subrange(inner_start as int, k as int) =~= inner);
            done = done.push(chars@.subrange(piece_start as int, inner_end as int));
            assert(args@.map_values(|a: String| a@) =~= done.map_values(|piece: Seq<char>| trimmed(piece)));
            assert(comma_pieces(inner) == done);
        }
    }
    Some((string_from_chars(&head), args))
}


/// What reflection tells of a local, as plain values.
pub open spec fn local_reflected(r: LocalReflection, l: LocalDecl) -> bool {
    &&& r.id == l.id
    &&& r.name@ == l.name@
    &&& r.ty@ == type_text(l.ty)
    &&& r.mutable == l.mutable
    &&& r.temp == l.temp
}

/// What reflection tells of a function.
pub open spec fn function_reflected(r: FunctionReflection, f: MirFunction) -> bool {
    &&& r.qualified_name@ == callable_text(f)
    &&& r.param_count == f.signature.params@.len()
    &&& r.return_type@ == type_text(*f.signature.return_type)
    &&& r.local_count == f.locals@.len()
    &&& r.block_count == f.blocks@.len()
    &&& r.is_declaration == f.is_declaration
}

/// Looks up a program's functions by the names they are called by; of several functions
/// with one name, the last is found.
pub struct MirReflection<'a> {
    program: &'a MirProgram,
    names: Vec<String>,
}

impl<'a> MirReflection<'a> {
    /// The program reflected on.
    pub closed spec fn reflected(&self) -> MirProgram {
        *self.program
    }

    #[verifier::type_invariant]
    spec fn inv(self) -> bool {
        self.names@.map_values(|s: String| s@) == names_of(*self.program)
    }

    pub fn new(program: &'a MirProgram) -> (r: Self)
        ensures
            r.reflected() == *program,
    {
        MirReflection { program, names: callable_names(program) }
    }

    pub fn program(&self) -> (p: &'a MirProgram)
        ensures
            *p == self.reflected(),
    {
        self.program
    }

    pub fn functions(&self) -> (f: &'a Vec<MirFunction>)
        ensures
            f@ == self.reflected().functions@,
    {
        &self.program.functions
    }

    /// The names the functions are called by, in order.
    pub fn callable_names(&self) -> (names: Vec<String>)
        ensures
            names@.map_values(|s: String| s@) == names_of(self.reflected()),
    {
        callable_names(self.program)
    }

    /// The function called by the name.
    pub fn function(&self, name: &str) -> (r: Option<&'a MirFunction>)
        ensures
            match last_index(names_of(self.reflected()), name@) {
                Some(k) => r == Some(&self.reflected().functions@[k]),
                None => r is None,
            },
    {
        proof {
            use_type_invariant(self);
        }
        match find_last(&self.names, name) {
            Some(k) => {
                proof {
                    crate::mir::determinism::lemma_last_index_bound(names_of(self.reflected()), name@);
                }
                Some(&self.program.functions[k])
            },
            None => None,
        }
    }

    /// The name, parameter count, return type and sizes of the function called by the name.
    pub fn describe_function(&self, name: &str) -> (r: Option<FunctionReflection>)
        ensures
            match last_index(names_of(self.reflected()), name@) {
                Some(k) => r matches Some(info) && function_reflected(info, self.reflected().functions@[k]),
                None => r is None,
            },
    {
        let function = match self.function(name) {
            Some(f) => f,
            None => return None,
        };
        Some(FunctionReflection {
            qualified_name: qualified_function_name(function),
            param_count: function.signature.params.len(),
            return_type: function.signature.return_type.display_name(),
            local_count: function.locals.len(),
            block_count: function.blocks.len(),
            is_declaration: function.is_declaration,
        })
    }

    /// The locals of the function called by the name, in order.
    pub fn locals(&self, name: &str) -> (r: Option<Vec<LocalReflection>>)
        ensures
            match last_index(names_of(self.reflected()), name@) {
                Some(k) => r matches Some(v) && v@.len() == self.reflected().functions@[k].locals@.len()
                    && forall|i: int| 0 <= i < v@.len() ==> #[trigger] local_reflected(v@[i], self.reflected().functions@[k].locals@[i]),
                None => r is None,
            },
    {
        let function = match self.function(name) {
            Some(f) => f,
            None => return None,
        };
        let mut locals: Vec<LocalReflection> = Vec::new();
        let mut i: usize = 0;
        while i < function.locals.len()
            invariant
                i <= function.locals@.len(),
                locals@.len() == i,
                forall|j: int| 0 <= j < i ==> #[trigger] local_reflected(locals@[j], function.locals@[j]),
            decreases function.locals@.len() - i,
        {
            let local = &function.locals[i];
            locals.push(LocalReflection {
                id: local.id,
                name: local.name.clone(),
                ty: local.ty.display_name(),
                mutable: local.mutable,
                temp: local.temp,
            });
            i += 1;
        }
        Some(locals)
    }
}

/// Reflection over the program's functions.
pub fn reflect_program(program: &MirProgram) -> (r: MirReflection<'_>)
    ensures
        r.reflected() == *program,
{
    MirReflection::new(program)
}
} // verus!
