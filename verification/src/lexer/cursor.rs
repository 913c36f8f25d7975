//! A character cursor over source text that tracks byte offset, line and column.

use vstd::prelude::*;
use vstd::utf8::{encode_scalar, encode_utf8};
use vstd::string::StringSliceAdditionalSpecFns;
use crate::text::chars_of;
use super::token::Position;

verus! {

/// Where a cursor stands: character index, byte offset, line and column (both 1-based).
pub ghost struct LexState {
    pub pos: nat,
    pub offset: nat,
    pub line: nat,
    pub column: nat,
}

/// The number of UTF-8 bytes of a character.
pub open spec fn width(c: char) -> nat {
    encode_scalar(c as u32).len()
}

/// The state at the start of a text.
pub open spec fn start_state() -> LexState {
    LexState { pos: 0, offset: 0, line: 1, column: 1 }
}

pub open spec fn peek_at(cs: Seq<char>, s: LexState) -> Option<char> {
    if s.pos < cs.len() {
        Some(cs[s.pos as int])
    } else {
        None
    }
}

pub open spec fn peek_next_at(cs: Seq<char>, s: LexState) -> Option<char> {
    if s.pos + 1 < cs.len() {
        Some(cs[s.pos + 1 as int])
    } else {
        None
    }
}

/// The state after reading one character: a newline starts a new line at column 1,
/// anything else moves one column right.
pub open spec fn bumped(cs: Seq<char>, s: LexState) -> LexState {
    if s.pos < cs.len() {
        let c = cs[s.pos as int];
        LexState {
            pos: s.pos + 1,
            offset: s.offset + width(c),
            line: if c == '\n' { s.line + 1 } else { s.line },
            column: if c == '\n' { 1 } else { s.column + 1 },
        }
    } else {
        s
    }
}

/// The state after a line break (`\n`, `\r` or `\r\n`); unchanged when none follows.
pub open spec fn newline_consumed(cs: Seq<char>, s: LexState) -> LexState {
    if peek_at(cs, s) == Some('\n') {
        LexState { pos: s.pos + 1, offset: s.offset + 1, line: s.line + 1, column: 1 }
    } else if peek_at(cs, s) == Some('\r') {
        if peek_next_at(cs, s) == Some('\n') {
            LexState { pos: s.pos + 2, offset: s.offset + 2, line: s.line + 1, column: 1 }
        } else {
            LexState { pos: s.pos + 1, offset: s.offset + 1, line: s.line + 1, column: 1 }
        }
    } else {
        s
    }
}

pub open spec fn position_of(s: LexState) -> Position {
    Position { offset: s.offset as usize, line: s.line as usize, column: s.column as usize }
}

/// A state reachable in `cs`: its offset is the byte length of the characters before
/// it, and its line and column never exceed one more than its character index.
pub open spec fn state_ok(cs: Seq<char>, s: LexState) -> bool {
    &&& s.pos <= cs.len()
    &&& s.offset == encode_utf8(cs.take(s.pos as int)).len()
    &&& s.pos <= s.offset
    &&& 1 <= s.line <= s.pos + 1
    &&& 1 <= s.column <= s.pos + 1
}

pub proof fn lemma_encode_utf8_concat(a: Seq<char>, b: Seq<char>)
    ensures
        encode_utf8(a + b) == encode_utf8(a) + encode_utf8(b),
    decreases a.len(),
{
    if a.len() > 0 {
        lemma_encode_utf8_concat(a.drop_first(), b);
        assert((a + b).drop_first() =~= a.drop_first() + b);
        assert(encode_utf8(a) == encode_scalar(a[0] as u32) + encode_utf8(a.drop_first()));
        assert(encode_utf8(a + b) == encode_scalar(a[0] as u32) + encode_utf8((a + b).drop_first()));
        assert(encode_scalar(a[0] as u32) + (encode_utf8(a.drop_first()) + encode_utf8(b))
            =~= encode_scalar(a[0] as u32) + encode_utf8(a.drop_first()) + encode_utf8(b));
    } else {
        assert(a + b =~= b);
        assert(encode_utf8(a) =~= Seq::<u8>::empty());
    }
}

pub proof fn lemma_width_bounds(c: char)
    ensures
        1 <= width(c) <= 4,
        c == '\n' ==> width(c) == 1,
        c == '\r' ==> width(c) == 1,
        (c as u32) < 0x80 ==> width(c) == 1,
{
}

/// The byte length of a prefix grows by the width of the next character.
pub proof fn lemma_prefix_bytes(cs: Seq<char>, k: int)
    requires
        0 <= k < cs.len(),
    ensures
        encode_utf8(cs.take(k + 1)).len() == encode_utf8(cs.take(k)).len() + width(cs[k]),
        encode_utf8(cs.take(k + 1)).len() <= encode_utf8(cs).len(),
        encode_utf8(cs.take(k)).len() >= k,
        encode_utf8(cs.take(k + 1)).len() >= k + 1,
{
    assert(cs.take(k + 1) =~= cs.take(k) + seq![cs[k]]);
    lemma_encode_utf8_concat(cs.take(k), seq![cs[k]]);
    assert(encode_utf8(seq![cs[k]]) =~= encode_scalar(cs[k] as u32)) by {
        reveal_with_fuel(encode_utf8, 2);
        assert(seq![cs[k]].drop_first() =~= Seq::<char>::empty());
    }
    assert(cs =~= cs.take(k + 1) + cs.skip(k + 1));
    lemma_encode_utf8_concat(cs.take(k + 1), cs.skip(k + 1));
    lemma_prefix_len_ge(cs, k);
    lemma_prefix_len_ge(cs, k + 1);
}

proof fn lemma_prefix_len_ge(cs: Seq<char>, k: int)
    requires
        0 <= k <= cs.len(),
    ensures
        encode_utf8(cs.take(k)).len() >= k,
    decreases k,
{
    if k > 0 {
        lemma_prefix_len_ge(cs, k - 1);
        assert(cs.take(k) =~= cs.take(k - 1) + seq![cs[k - 1]]);
        lemma_encode_utf8_concat(cs.take(k - 1), seq![cs[k - 1]]);
        assert(encode_utf8(seq![cs[k - 1]]) =~= encode_scalar(cs[k - 1] as u32)) by {
            reveal_with_fuel(encode_utf8, 2);
            assert(seq![cs[k - 1]].drop_first() =~= Seq::<char>::empty());
        }
        lemma_width_bounds(cs[k - 1]);
    }
}

/// Reading a character keeps a state reachable.
pub proof fn lemma_bumped_ok(cs: Seq<char>, s: LexState)
    requires
        state_ok(cs, s),
        s.pos < cs.len(),
    ensures
        state_ok(cs, bumped(cs, s)),
        bumped(cs, s).offset <= encode_utf8(cs).len(),
{
    lemma_prefix_bytes(cs, s.pos as int);
}

/// Consuming a line break keeps a state reachable.
pub proof fn lemma_newline_ok(cs: Seq<char>, s: LexState)
    requires
        state_ok(cs, s),
    ensures
        state_ok(cs, newline_consumed(cs, s)),
        newline_consumed(cs, s).offset <= encode_utf8(cs).len(),
        newline_consumed(cs, s).pos >= s.pos,
        s.offset <= encode_utf8(cs).len(),
{
    if s.pos < cs.len() {
        lemma_prefix_bytes(cs, s.pos as int);
        lemma_width_bounds(cs[s.pos as int]);
        if s.pos + 1 < cs.len() {
            lemma_prefix_bytes(cs, s.pos + 1 as int);
            lemma_width_bounds(cs[s.pos + 1 as int]);
        }
    } else {
        assert(cs.take(s.pos as int) =~= cs);
    }
}

/// The byte offset of every character index is a character boundary of the encoding.
pub proof fn lemma_offset_boundary(cs: Seq<char>, k: int)
    requires
        0 <= k <= cs.len(),
    ensures
        vstd::utf8::is_char_boundary(encode_utf8(cs), encode_utf8(cs.take(k)).len() as int),
        encode_utf8(cs.take(k)).len() <= encode_utf8(cs).len(),
    decreases k,
{
    vstd::utf8::encode_utf8_valid_utf8(cs);
    assert(cs =~= cs.take(k) + cs.skip(k));
    lemma_encode_utf8_concat(cs.take(k), cs.skip(k));
    if k > 0 {
        let bytes = encode_utf8(cs);
        vstd::utf8::encode_utf8_first_scalar(cs);
        assert(vstd::utf8::pop_first_scalar(bytes) =~= encode_utf8(cs.drop_first()));
        lemma_offset_boundary(cs.drop_first(), k - 1);
        assert(cs.take(k) =~= seq![cs[0]] + cs.drop_first().take(k - 1));
        lemma_encode_utf8_concat(seq![cs[0]], cs.drop_first().take(k - 1));
        assert(encode_utf8(seq![cs[0]]) =~= encode_scalar(cs[0] as u32)) by {
            reveal_with_fuel(encode_utf8, 2);
            assert(seq![cs[0]].drop_first() =~= Seq::<char>::empty());
        }
    }
}

/// The bytes between two character indices encode the characters between them.
pub proof fn lemma_bytes_between(cs: Seq<char>, p: int, q: int)
    requires
        0 <= p <= q <= cs.len(),
    ensures
        encode_utf8(cs).subrange(
            encode_utf8(cs.take(p)).len() as int,
            encode_utf8(cs.take(q)).len() as int,
        ) == encode_utf8(cs.subrange(p, q)),
        vstd::utf8::decode_utf8(encode_utf8(cs).subrange(
            encode_utf8(cs.take(p)).len() as int,
            encode_utf8(cs.take(q)).len() as int,
        )) == cs.subrange(p, q),
{
    assert(cs =~= cs.take(p) + (cs.subrange(p, q) + cs.skip(q)));
    lemma_encode_utf8_concat(cs.take(p), cs.subrange(p, q) + cs.skip(q));
    lemma_encode_utf8_concat(cs.subrange(p, q), cs.skip(q));
    assert(cs.take(q) =~= cs.take(p) + cs.subrange(p, q));
    lemma_encode_utf8_concat(cs.take(p), cs.subrange(p, q));
    assert(encode_utf8(cs).subrange(
        encode_utf8(cs.take(p)).len() as int,
        encode_utf8(cs.take(q)).len() as int,
    ) =~= encode_utf8(cs.subrange(p, q)));
    vstd::utf8::encode_utf8_decode_utf8(cs.subrange(p, q));
}

/// A cursor over a source text.
#[derive(Debug, Clone)]
pub struct Cursor<'a> {
    source: &'a str,
    chars: Vec<char>,
    pos: usize,
    index: usize,
    line: usize,
    column: usize,
}

impl<'a> Cursor<'a> {
    /// The characters of the text.
    pub closed spec fn text(&self) -> Seq<char> {
        self.chars@
    }

    /// The source the cursor reads.
    pub closed spec fn source(&self) -> &'a str {
        self.source
    }

    /// Where the cursor stands.
    pub closed spec fn state(&self) -> LexState {
        LexState {
            pos: self.pos as nat,
            offset: self.index as nat,
            line: self.line as nat,
            column: self.column as nat,
        }
    }

    pub closed spec fn wf(&self) -> bool {
        &&& self.chars@ == self.source@
        &&& state_ok(self.chars@, self.state())
        &&& encode_utf8(self.chars@).len() < usize::MAX
    }

    /// What a well-formed cursor guarantees about its state.
    pub proof fn wf_facts(&self)
        requires
            self.wf(),
        ensures
            state_ok(self.text(), self.state()),
            self.text() == self.source()@,
            self.source().spec_bytes() == encode_utf8(self.text()),
            self.state().offset <= self.source().spec_bytes().len(),
            self.source().spec_bytes().len() < usize::MAX,
    {
        lemma_offset_boundary(self.chars@, self.pos as int);
    }

    pub fn new(source: &'a str) -> (c: Self)
        requires
            source.spec_bytes().len() < usize::MAX,
        ensures
            c.wf(),
            c.text() == source@,
            c.source() == source,
            c.state() == start_state(),
    {
        let c = Cursor { source, chars: chars_of(source), pos: 0, index: 0, line: 1, column: 1 };
        assert(c.chars@.take(0) =~= Seq::<char>::empty());
        assert(encode_utf8(Seq::<char>::empty()) =~= Seq::<u8>::empty());
        c
    }

    pub fn is_eof(&self) -> (r: bool)
        requires
            self.wf(),
        ensures
            r == (self.state().pos >= self.text().len()),
    {
        self.pos >= self.chars.len()
    }

    pub fn position(&self) -> (p: Position)
        ensures
            p == position_of(self.state()),
    {
        Position::new(self.index, self.line, self.column)
    }

    pub fn peek(&self) -> (c: Option<char>)
        requires
            self.wf(),
        ensures
            c == peek_at(self.text(), self.state()),
    {
        if self.pos < self.chars.len() {
            Some(self.chars[self.pos])
        } else {
            None
        }
    }

    pub fn peek_next(&self) -> (c: Option<char>)
        requires
            self.wf(),
        ensures
            c == peek_next_at(self.text(), self.state()),
    {
        if self.pos < self.chars.len() && self.pos + 1 < self.chars.len() {
            Some(self.chars[self.pos + 1])
        } else {
            None
        }
    }

    pub fn bump(&mut self) -> (c: Option<char>)
        requires
            old(self).wf(),
        ensures
            final(self).wf(),
            final(self).text() == old(self).text(),
            final(self).source() == old(self).source(),
            c == peek_at(old(self).text(), old(self).state()),
            final(self).state() == bumped(old(self).text(), old(self).state()),
    {
        let ch = match self.peek() {
            Some(ch) => ch,
            None => return None,
        };
        proof {
            lemma_bumped_ok(self.chars@, self.state());
            lemma_width_bounds(ch);
        }
        self.index = self.index + char_len_utf8(ch);
        self.pos = self.pos + 1;
        if ch == '\n' {
            self.line = self.line + 1;
            self.column = 1;
        } else {
            self.column = self.column + 1;
        }
        Some(ch)
    }

    pub fn consume_newline(&mut self) -> (r: bool)
        requires
            old(self).wf(),
        ensures
            final(self).wf(),
            final(self).text() == old(self).text(),
            final(self).source() == old(self).source(),
            r == (peek_at(old(self).text(), old(self).state()) == Some('\n') || peek_at(
                old(self).text(),
                old(self).state(),
            ) == Some('\r')),
            final(self).state() == newline_consumed(old(self).text(), old(self).state()),
    {
        proof {
            lemma_newline_ok(self.chars@, self.state());
        }
        match self.peek() {
            Some('\n') => {
                self.index = self.index + 1;
                self.pos = self.pos + 1;
                self.line = self.line + 1;
                self.column = 1;
                true
            },
            Some('\r') => {
                self.index = self.index + 1;
                self.pos = self.pos + 1;
                if self.pos < self.chars.len() && self.chars[self.pos] == '\n' {
                    self.index = self.index + 1;
                    self.pos = self.pos + 1;
                }
                self.line = self.line + 1;
                self.column = 1;
                true
            },
            _ => false,
        }
    }

    /// The text between two byte offsets, which must lie on character boundaries.
    pub fn slice(&self, start: usize, end: usize) -> (s: &'a str)
        requires
            start <= end <= self.source().spec_bytes().len(),
            vstd::utf8::is_char_boundary(self.source().spec_bytes(), start as int),
            vstd::utf8::is_char_boundary(self.source().spec_bytes(), end as int),
        ensures
            s.spec_bytes() == self.source().spec_bytes().subrange(start as int, end as int),
    {
        crate::text::substr(self.source, start, end)
    }

    /// The characters between two character indices.
    pub(crate) fn chars_between(&self, from: usize, to: usize) -> (v: Vec<char>)
        requires
            self.wf(),
            from <= to <= self.text().len(),
        ensures
            v@ == self.text().subrange(from as int, to as int),
    {
        let mut v: Vec<char> = Vec::new();
        let mut i = from;
        while i < to
            invariant
                from <= i <= to <= self.chars@.len(),
                v@ == self.chars@.subrange(from as int, i as int),
            decreases to - i,
        {
            v.push(self.chars[i]);
            assert(self.chars@.subrange(from as int, i as int).push(self.chars@[i as int])
                =~= self.chars@.subrange(from as int, i + 1));
            i += 1;
        }
        v
    }

    /// The current character index.
    pub(crate) fn char_index(&self) -> (i: usize)
        ensures
            i == self.state().pos,
    {
        self.pos
    }
}

/// The number of bytes of the character's UTF-8 encoding.
fn char_len_utf8(c: char) -> (n: usize)
    ensures
        n == width(c),
{
    let v = c as u32;
    if v <= 0x7F {
        1
    } else if v <= 0x7FF {
        2
    } else if v <= 0xFFFF {
        3
    } else {
        4
    }
}

} // verus!
