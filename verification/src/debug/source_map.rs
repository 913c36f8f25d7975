//! Source files and the translation of byte offsets to lines and columns.

use vstd::prelude::*;
use vstd::string::StringSliceAdditionalSpecFns;
use vstd::utf8::encode_utf8;
use crate::ast::span::{Position, Span};
use crate::text::{owned, str_get};

verus! {

#[derive(Debug, Clone, Copy, PartialEq, Eq, Hash, Structural)]
pub struct SourceFileId(pub usize);

#[derive(Debug, Clone, Copy, PartialEq, Eq, Structural)]
pub struct SourceLocation {
    pub file: SourceFileId,
    pub offset: usize,
    pub line: usize,
    pub column: usize,
}

#[derive(Debug, Clone, Copy, PartialEq, Eq, Structural)]
pub struct SourceRange {
    pub file: SourceFileId,
    pub start: SourceLocation,
    pub end: SourceLocation,
}

#[derive(Debug, Clone)]
pub struct SourceFile {
    pub id: SourceFileId,
    pub name: String,
    pub source: String,
    pub line_starts: Vec<usize>,
}

/// The offsets just after each newline byte.
pub open spec fn newline_ends(bytes: Seq<u8>) -> Seq<usize>
    decreases bytes.len(),
{
    if bytes.len() == 0 {
        Seq::empty()
    } else if bytes.last() == 10 {
        newline_ends(bytes.drop_last()).push(bytes.len() as usize)
    } else {
        newline_ends(bytes.drop_last())
    }
}

/// The offset at which each line starts: zero, then just after each newline.
pub open spec fn line_starts_of(bytes: Seq<u8>) -> Seq<usize> {
    seq![0usize] + newline_ends(bytes)
}

/// How many of the offsets are at most `offset`.
pub open spec fn count_at_most(starts: Seq<usize>, offset: usize) -> nat
    decreases starts.len(),
{
    if starts.len() == 0 {
        0
    } else {
        count_at_most(starts.drop_last(), offset) + if starts.last() <= offset { 1nat } else { 0nat }
    }
}

/// The line (from 1) and column (from 1, in bytes) of an offset in a text.
pub open spec fn line_and_column(bytes: Seq<u8>, offset: usize) -> (nat, nat) {
    let starts = line_starts_of(bytes);
    let line = count_at_most(starts, offset);
    (line, (offset - starts[line - 1] + 1) as nat)
}

impl SourceFile {
    /// The file's line table matches its text.
    pub open spec fn wf(&self) -> bool {
        &&& self.line_starts@ == line_starts_of(encode_utf8(self.source@))
        &&& encode_utf8(self.source@).len() <= usize::MAX
    }

    pub fn new(id: SourceFileId, name: String, source: String) -> (f: Self)
        ensures
            f.wf(),
            f.id == id,
            f.name@ == name@,
            f.source@ == source@,
    {
        let line_starts = compute_line_starts(source.as_str());
        SourceFile { id, name, line_starts, source }
    }

    /// The offsets at which the lines start.
    pub fn line_starts(&self) -> (v: &Vec<usize>)
        requires
            self.wf(),
        ensures
            v@ == line_starts_of(encode_utf8(self.source@)),
    {
        &self.line_starts
    }
}

pub fn compute_line_starts(source: &str) -> (v: Vec<usize>)
    ensures
        v@ == line_starts_of(source.spec_bytes()),
        source.spec_bytes().len() <= usize::MAX,
{
    let bytes = source.as_bytes();
    let mut starts: Vec<usize> = vec![0];
    let mut i: usize = 0;
    while i < bytes.len()
        invariant
            bytes@ == source.spec_bytes(),
            i <= bytes@.len(),
            starts@ == line_starts_of(bytes@.take(i as int)),
        decreases bytes@.len() - i,
    {
        let ghost next = bytes@.take(i + 1);
        assert(next.drop_last() =~= bytes@.take(i as int));
        if bytes[i] == 10 {
            starts.push(i + 1);
        }
        assert(starts@ =~= line_starts_of(next));
        i += 1;
    }
    assert(bytes@.take(bytes@.len() as int) =~= bytes@);
    starts
}

/// The files of a program, each under the id it was added with.
#[derive(Debug)]
pub struct SourceMap {
    files: Vec<SourceFile>,
}

impl SourceMap {
    pub closed spec fn view(&self) -> Seq<SourceFile> {
        self.files@
    }

    #[verifier::type_invariant]
    spec fn inv(self) -> bool {
        forall|i: int| 0 <= i < self.files@.len() ==> (#[trigger] self.files@[i]).wf() && self.files@[i].id.0 == i
    }

    pub fn new() -> (m: Self)
        ensures
            m@ == Seq::<SourceFile>::empty(),
    {
        SourceMap { files: Vec::new() }
    }

    /// Adds a file and returns its id, the number of files before it.
    pub fn add_file(&mut self, name: &str, source: &str) -> (id: SourceFileId)
        ensures
            id.0 == old(self)@.len(),
            final(self)@.len() == old(self)@.len() + 1,
            final(self)@.take(old(self)@.len() as int) == old(self)@,
            final(self)@.last().id == id,
            final(self)@.last().name@ == name@,
            final(self)@.last().source@ == source@,
    {
        proof {
            use_type_invariant(&*self);
        }
        let id = SourceFileId(self.files.len());
        let file = SourceFile::new(id, owned(name), owned(source));
        let mut files = Vec::new();
        std::mem::swap(&mut files, &mut self.files);
        files.push(file);
        self.files = files;
        assert(self@.take(old(self)@.len() as int) =~= old(self)@);
        id
    }

    pub fn file(&self, id: SourceFileId) -> (r: Option<&SourceFile>)
        ensures
            r is Some <==> id.0 < self@.len(),
            r matches Some(f) ==> *f == self@[id.0 as int] && f.wf() && f.id == id,
    {
        proof {
            use_type_invariant(self);
        }
        if id.0 < self.files.len() {
            Some(&self.files[id.0])
        } else {
            None
        }
    }

    pub fn files(&self) -> (r: &[SourceFile])
        ensures
            r@ == self@,
    {
        self.files.as_slice()
    }

    /// Whether the column of the offset fits in a `usize`: it does below `usize::MAX`, in an
    /// unknown file, and in a file with a line break (the column counts from past it).
    pub open spec fn column_fits(&self, id: SourceFileId, offset: usize) -> bool {
        offset < usize::MAX || id.0 >= self@.len() || newline_ends(encode_utf8(self@[id.0 as int].source@)).len() > 0
    }

    /// The line and column of a byte offset in a file; none for an unknown file.
    pub fn lookup_offset(&self, id: SourceFileId, offset: usize) -> (r: Option<SourceLocation>)
        requires
            self.column_fits(id, offset),
        ensures
            r is Some <==> id.0 < self@.len(),
            r matches Some(loc) ==> ({
                let lc = line_and_column(encode_utf8(self@[id.0 as int].source@), offset);
                loc == SourceLocation { file: id, offset, line: lc.0 as usize, column: lc.1 as usize }
            }),
    {
        let file = match self.file(id) {
            Some(f) => f,
            None => return None,
        };
        let starts = file.line_starts();
        let ghost bytes = encode_utf8(file.source@);
        let mut count: usize = 0;
        let mut i: usize = 0;
        while i < starts.len()
            invariant
                i <= starts@.len(),
                count == count_at_most(starts@.take(i as int), offset),
                count <= i,
            decreases starts@.len() - i,
        {
            assert(starts@.take(i + 1).drop_last() =~= starts@.take(i as int));
            if starts[i] <= offset {
                count = count + 1;
            }
            i += 1;
        }
        proof {
            assert(starts@.take(i as int) =~= starts@);
            lemma_count_positive(starts@, offset);
            lemma_count_bound(starts@, offset);
        }
        let line_start = starts[count - 1];
        proof {
            lemma_counted_start(bytes, offset);
            if offset == usize::MAX {
                lemma_newline_ends_sorted(bytes);
                lemma_count_all(starts@, offset);
                let ne = newline_ends(bytes);
                assert(starts@[count - 1] == ne[ne.len() - 1]);
            }
        }
        Some(SourceLocation { file: id, offset, line: count, column: offset - line_start + 1 })
    }

    /// The line and column of a position in a file: looked up from its offset when the
    /// file is known, else the position's own.
    pub fn lookup_position(&self, id: SourceFileId, position: Position) -> (r: Option<SourceLocation>)
        requires
            self.column_fits(id, position.offset),
        ensures
            r is Some,
            id.0 < self@.len() ==> ({
                let lc = line_and_column(encode_utf8(self@[id.0 as int].source@), position.offset);
                r == Some(SourceLocation { file: id, offset: position.offset, line: lc.0 as usize, column: lc.1 as usize })
            }),
            id.0 >= self@.len() ==> r == Some(SourceLocation {
                file: id, offset: position.offset, line: position.line, column: position.column,
            }),
    {
        match self.lookup_offset(id, position.offset) {
            Some(loc) => Some(loc),
            None => Some(SourceLocation { file: id, offset: position.offset, line: position.line, column: position.column }),
        }
    }

    /// The locations of a span's ends.
    pub fn resolve_span(&self, id: SourceFileId, span: Span) -> (r: Option<SourceRange>)
        requires
            self.column_fits(id, span.start.offset),
            self.column_fits(id, span.end.offset),
        ensures
            r matches Some(range) && range.file == id
                && Some(range.start) == position_location(self@, id, span.start)
                && Some(range.end) == position_location(self@, id, span.end),
    {
        let start = match self.lookup_position(id, span.start) {
            Some(l) => l,
            None => return None,
        };
        let end = match self.lookup_position(id, span.end) {
            Some(l) => l,
            None => return None,
        };
        Some(SourceRange { file: id, start, end })
    }

    /// The text a span covers, when the file is known and the span's offsets are in order,
    /// within the text and on character boundaries.
    pub fn snippet(&self, id: SourceFileId, span: Span) -> (r: Option<&str>)
        ensures
            r is Some <==> (id.0 < self@.len() && ({
                let bytes = encode_utf8(self@[id.0 as int].source@);
                &&& span.start.offset <= span.end.offset <= bytes.len()
                &&& vstd::utf8::is_char_boundary(bytes, span.start.offset as int)
                &&& vstd::utf8::is_char_boundary(bytes, span.end.offset as int)
            })),
            r matches Some(s) ==> s.spec_bytes()
                == encode_utf8(self@[id.0 as int].source@).subrange(span.start.offset as int, span.end.offset as int),
    {
        let file = match self.file(id) {
            Some(f) => f,
            None => return None,
        };
        let source = file.source.as_str();
        if span.start.offset > span.end.offset || span.end.offset > source.as_bytes().len() {
            return None;
        }
        str_get(source, span.start.offset, span.end.offset)
    }
}

/// Where a position is in a map's file: looked up when the file is known, else the
/// position's own line and column.
pub open spec fn position_location(files: Seq<SourceFile>, id: SourceFileId, p: Position) -> Option<SourceLocation> {
    if id.0 < files.len() {
        let lc = line_and_column(encode_utf8(files[id.0 as int].source@), p.offset);
        Some(SourceLocation { file: id, offset: p.offset, line: lc.0 as usize, column: lc.1 as usize })
    } else {
        Some(SourceLocation { file: id, offset: p.offset, line: p.line, column: p.column })
    }
}

proof fn lemma_count_positive(starts: Seq<usize>, offset: usize)
    requires
        starts.len() > 0,
        starts[0] == 0,
    ensures
        count_at_most(starts, offset) >= 1,
    decreases starts.len(),
{
    if starts.len() > 1 {
        lemma_count_positive(starts.drop_last(), offset);
    }
}

/// Every offset is at most `usize::MAX`, so all of them count.
proof fn lemma_count_all(starts: Seq<usize>, offset: usize)
    requires
        offset == usize::MAX,
    ensures
        count_at_most(starts, offset) == starts.len(),
    decreases starts.len(),
{
    if starts.len() > 0 {
        lemma_count_all(starts.drop_last(), offset);
    }
}

proof fn lemma_count_bound(starts: Seq<usize>, offset: usize)
    ensures
        count_at_most(starts, offset) <= starts.len(),
    decreases starts.len(),
{
    if starts.len() > 0 {
        lemma_count_bound(starts.drop_last(), offset);
    }
}

/// The newline ends are increasing and lie within the text.
proof fn lemma_newline_ends_sorted(bytes: Seq<u8>)
    requires
        bytes.len() <= usize::MAX,
    ensures
        forall|i: int, j: int| 0 <= i < j < newline_ends(bytes).len() ==> newline_ends(bytes)[i] < newline_ends(bytes)[j],
        forall|i: int| 0 <= i < newline_ends(bytes).len() ==> 0 < #[trigger] newline_ends(bytes)[i] <= bytes.len(),
    decreases bytes.len(),
{
    if bytes.len() > 0 {
        let prev = newline_ends(bytes.drop_last());
        lemma_newline_ends_sorted(bytes.drop_last());
        let ne = newline_ends(bytes);
        if bytes.last() == 10 {
            assert forall|i: int| 0 <= i < ne.len() implies 0 < #[trigger] ne[i] <= bytes.len() by {
                if i < prev.len() {
                    assert(ne[i] == prev[i]);
                }
            }
            assert forall|i: int, j: int| 0 <= i < j < ne.len() implies ne[i] < ne[j] by {
                assert(ne[i] == prev[i]);
                if j < prev.len() {
                    assert(ne[j] == prev[j]);
                }
            }
        }
    }
}

/// In increasing offsets starting at zero, the ones at most `offset` are a prefix, so
/// the last of them is at most `offset`.
proof fn lemma_counted_start(bytes: Seq<u8>, offset: usize)
    requires
        bytes.len() <= usize::MAX,
    ensures
        ({
            let starts = line_starts_of(bytes);
            let c = count_at_most(starts, offset);
            1 <= c <= starts.len() && starts[c - 1] <= offset
        }),
{
    let starts = line_starts_of(bytes);
    lemma_newline_ends_sorted(bytes);
    assert(forall|i: int, j: int| 0 <= i < j < starts.len() ==> starts[i] < starts[j]) by {
        assert forall|i: int, j: int| 0 <= i < j < starts.len() implies starts[i] < starts[j] by {
            if i > 0 {
                assert(starts[i] == newline_ends(bytes)[i - 1]);
            }
            assert(starts[j] == newline_ends(bytes)[j - 1]);
        }
    }
    lemma_count_sorted(starts, offset);
}

/// In increasing offsets, the count of those at most `offset` is the length of the
/// prefix below or at it.
proof fn lemma_count_sorted(starts: Seq<usize>, offset: usize)
    requires
        starts.len() > 0,
        starts[0] == 0,
        forall|i: int, j: int| 0 <= i < j < starts.len() ==> starts[i] < starts[j],
    ensures
        1 <= count_at_most(starts, offset) <= starts.len(),
        starts[count_at_most(starts, offset) - 1] <= offset,
        forall|i: int| 0 <= i < count_at_most(starts, offset) ==> starts[i] <= offset,
        forall|i: int| count_at_most(starts, offset) <= i < starts.len() ==> starts[i] > offset,
    decreases starts.len(),
{
    if starts.len() == 1 {
        assert(count_at_most(starts.drop_last(), offset) == 0);
    } else {
        let prev = starts.drop_last();
        lemma_count_sorted(prev, offset);
        let c = count_at_most(prev, offset);
        assert(count_at_most(starts, offset) == c + if starts.last() <= offset { 1nat } else { 0nat });
        if starts.last() <= offset {
            if c < prev.len() {
                assert(prev[c as int] > offset);
                assert(starts[c as int] < starts[starts.len() - 1]);
            }
            assert(c == prev.len());
        }
        assert forall|i: int| count_at_most(starts, offset) <= i < starts.len() implies starts[i] > offset by {
            if i < prev.len() {
                assert(starts[i] == prev[i]);
            }
        }
        assert forall|i: int| 0 <= i < count_at_most(starts, offset) implies starts[i] <= offset by {
            if i < prev.len() {
                assert(starts[i] == prev[i]);
            }
        }
    }
}

} // verus!
