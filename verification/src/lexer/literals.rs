//! Number and string literals.

use vstd::prelude::*;
use vstd::string::StringSliceAdditionalSpecFns;
use vstd::utf8::{decode_utf8, encode_utf8, is_char_boundary};
use crate::text::{owned, push_char};
use super::cursor::{Cursor, LexState, bumped, peek_at, peek_next_at, position_of, lemma_offset_boundary};
use super::grammar::{StringScan, escape_value, is_digit, number_end, scan_string, skip_digits};
use super::token::{Position, Span, Token, TokenKind};
use super::LexError;

verus! {

pub(crate) fn is_ascii_digit(c: char) -> (r: bool)
    ensures
        r == is_digit(c),
{
    '0' <= c && c <= '9'
}

fn peek_is_digit(cursor: &Cursor<'_>) -> (r: bool)
    requires
        cursor.wf(),
    ensures
        r == (peek_at(cursor.text(), cursor.state()) matches Some(c) && is_digit(c)),
{
    match cursor.peek() {
        Some(c) => is_ascii_digit(c),
        None => false,
    }
}

/// Reads digits while there are any.
fn bump_digits(cursor: &mut Cursor<'_>)
    requires
        old(cursor).wf(),
    ensures
        final(cursor).wf(),
        final(cursor).text() == old(cursor).text(),
        final(cursor).source() == old(cursor).source(),
        final(cursor).state() == skip_digits(old(cursor).text(), old(cursor).state()),
        final(cursor).state().offset >= old(cursor).state().offset,
{
    let ghost cs = cursor.text();
    let ghost target = skip_digits(cs, cursor.state());
    while peek_is_digit(cursor)
        invariant
            cursor.wf(),
            cursor.text() == cs,
            cursor.source() == old(cursor).source(),
            skip_digits(cs, cursor.state()) == target,
            cursor.state().offset >= old(cursor).state().offset,
        decreases cs.len() - cursor.state().pos,
    {
        cursor.bump();
    }
}

/// Lexes an integer or float literal whose text starts at byte offset `start.offset`.
pub fn lex_number(cursor: &mut Cursor<'_>, start: Position) -> (t: Token)
    requires
        old(cursor).wf(),
        start.offset <= old(cursor).state().offset,
        is_char_boundary(old(cursor).source().spec_bytes(), start.offset as int),
    ensures
        final(cursor).wf(),
        final(cursor).text() == old(cursor).text(),
        final(cursor).source() == old(cursor).source(),
        final(cursor).state() == number_end(old(cursor).text(), old(cursor).state()).1,
        t.span == (Span { start, end: position_of(final(cursor).state()) }),
        number_end(old(cursor).text(), old(cursor).state()).0 ==> t.kind is Float,
        !number_end(old(cursor).text(), old(cursor).state()).0 ==> t.kind is Integer,
        t.kind matches TokenKind::Float(s) ==> s@ == decode_utf8(
            old(cursor).source().spec_bytes().subrange(
                start.offset as int,
                final(cursor).state().offset as int,
            ),
        ),
        t.kind matches TokenKind::Integer(s) ==> s@ == decode_utf8(
            old(cursor).source().spec_bytes().subrange(
                start.offset as int,
                final(cursor).state().offset as int,
            ),
        ),
{
    let ghost cs = cursor.text();
    let start_offset = start.offset;
    bump_digits(cursor);
    let is_float = match cursor.peek() {
        Some('.') => match cursor.peek_next() {
            Some(d) => is_ascii_digit(d),
            None => false,
        },
        _ => false,
    };
    if is_float {
        cursor.bump();
        bump_digits(cursor);
    }
    let end = cursor.position();
    proof {
        cursor.wf_facts();
        lemma_offset_boundary(cs, cursor.state().pos as int);
        vstd::utf8::encode_utf8_decode_utf8(cursor.source()@);
    }
    let text = cursor.slice(start_offset, end.offset);
    proof {
        vstd::utf8::encode_utf8_decode_utf8(text@);
    }
    let value = owned(text);
    let kind = if is_float {
        TokenKind::Float(value)
    } else {
        TokenKind::Integer(value)
    };
    Token::new(kind, Span::new(start, end))
}

/// The message for an unsupported escape character.
fn escape_message(other: char) -> (m: String)
    ensures
        m@ == "unsupported escape sequence `\\"@ + seq![other] + "`"@,
{
    let mut m = owned("unsupported escape sequence `\\");
    push_char(&mut m, other);
    let tail = owned("`");
    let mut all = m;
    let mut i: usize = 0;
    let mut chars = crate::text::chars_of(tail.as_str());
    while i < chars.len()
        invariant
            i <= chars@.len(),
            chars@ == "`"@,
            all@ == "unsupported escape sequence `\\"@ + seq![other] + chars@.take(i as int),
        decreases chars@.len() - i,
    {
        push_char(&mut all, chars[i]);
        assert("unsupported escape sequence `\\"@ + seq![other] + chars@.take(i as int) + seq![chars@[i as int]]
            =~= "unsupported escape sequence `\\"@ + seq![other] + chars@.take(i + 1));
        i += 1;
    }
    assert(chars@.take(chars@.len() as int) =~= chars@);
    all
}

/// Lexes a string literal: skips the opening quote, then reads characters and escapes
/// up to the closing quote.
pub fn lex_string(cursor: &mut Cursor<'_>, start: Position) -> (r: Result<Token, LexError>)
    requires
        old(cursor).wf(),
    ensures
        final(cursor).wf(),
        final(cursor).text() == old(cursor).text(),
        final(cursor).source() == old(cursor).source(),
        match scan_string(
            old(cursor).text(),
            bumped(old(cursor).text(), old(cursor).state()),
            Seq::empty(),
        ) {
            StringScan::Closed(v, e) => r matches Ok(t) && t.kind matches TokenKind::String(s)
                && s@ == v && t.span == (Span { start, end: position_of(e) })
                && final(cursor).state() == e,
            StringScan::Failed(m, e) => r matches Err(err) && err.message@ == m && err.span == (
            Span { start, end: position_of(e) }) && final(cursor).state() == e,
        },
{
    let ghost cs = cursor.text();
    let ghost s0 = cursor.state();
    let _ = cursor.bump();
    let ghost target = scan_string(cs, cursor.state(), Seq::empty());
    assert(target == scan_string(cs, bumped(cs, s0), Seq::empty()));
    let mut value = String::new();
    loop
        invariant
            cursor.wf(),
            cursor.text() == cs,
            cs == old(cursor).text(),
            s0 == old(cursor).state(),
            target == scan_string(cs, bumped(cs, s0), Seq::empty()),
            cursor.source() == old(cursor).source(),
            scan_string(cs, cursor.state(), value@) == target,
        decreases cs.len() - cursor.state().pos,
    {
        let ch = match cursor.peek() {
            Some(ch) => ch,
            None => {
                let message = owned("unterminated string literal");
                return Err(LexError { message, span: Span::new(start, cursor.position()) });
            },
        };
        if ch == '"' {
            let _ = cursor.bump();
            return Ok(Token::new(TokenKind::String(value), Span::new(start, cursor.position())));
        } else if ch == '\\' {
            let _ = cursor.bump();
            let escaped = match cursor.bump() {
                Some('n') => '\n',
                Some('r') => '\r',
                Some('t') => '\t',
                Some('"') => '"',
                Some('\\') => '\\',
                Some(other) => {
                    let message = escape_message(other);
                    return Err(LexError { message, span: Span::new(start, cursor.position()) });
                },
                None => {
                    let message = owned("unterminated string escape");
                    return Err(LexError { message, span: Span::new(start, cursor.position()) });
                },
            };
            push_char(&mut value, escaped);
        } else if ch == '\n' || ch == '\r' {
            let message = owned("unterminated string literal");
            return Err(LexError { message, span: Span::new(start, cursor.position()) });
        } else {
            push_char(&mut value, ch);
            let _ = cursor.bump();
        }
    }
}

} // verus!
