//! Turns Mentalogue source text into tokens.

pub mod cursor;
pub mod grammar;
pub mod literals;
pub mod token;

pub use cursor::Cursor;
pub use literals::{lex_number, lex_string};
pub use token::{Position, Span, Token, TokenKind};

use vstd::prelude::*;
use vstd::string::StringSliceAdditionalSpecFns;
use crate::text::{owned, str_eq};
use cursor::{LexState, bumped, newline_consumed, peek_at, peek_next_at, position_of, start_state, lemma_offset_boundary, lemma_bytes_between};
use grammar::{
    LexOutcome, StringScan, TokenView, block_comment, ident_continue, ident_start, is_alpha, is_digit,
    keyword, lex_from, number_end, prepend, punctuation, scan_string, skip_ident, skip_line, span_of,
    tok, token_view,
};
use literals::is_ascii_digit;

verus! {

#[derive(Debug, Clone, PartialEq, Eq)]
pub struct LexError {
    pub message: String,
    pub span: Span,
}

impl LexError {
    pub fn new(message: &str, span: Span) -> (e: Self)
        ensures
            e.message@ == message@,
            e.span == span,
    {
        LexError { message: owned(message), span }
    }
}

/// The tokens so far, as plain values.
pub open spec fn views(ts: Seq<Token>) -> Seq<TokenView> {
    ts.map_values(|t: Token| token_view(t))
}

proof fn lemma_prepend_push(ts: Seq<TokenView>, t: TokenView, o: LexOutcome)
    ensures
        prepend(ts.push(t), o) == prepend(ts, prepend(seq![t], o)),
{
    match o {
        LexOutcome::Done(rest) => {
            assert(ts.push(t) + rest =~= ts + (seq![t] + rest));
        },
        _ => {},
    }
}

proof fn lemma_views_push(ts: Seq<Token>, t: Token)
    ensures
        views(ts.push(t)) == views(ts).push(token_view(t)),
{
    assert(views(ts.push(t)) =~= views(ts).push(token_view(t)));
}

pub(crate) fn is_ident_start(ch: char) -> (r: bool)
    ensures
        r == ident_start(ch),
{
    ch == '_' || ('a' <= ch && ch <= 'z') || ('A' <= ch && ch <= 'Z')
}

pub(crate) fn is_ident_continue(ch: char) -> (r: bool)
    ensures
        r == ident_continue(ch),
{
    ch == '_' || ('a' <= ch && ch <= 'z') || ('A' <= ch && ch <= 'Z') || ('0' <= ch && ch <= '9')
}

/// The keyword spelled by `text`, if any.
fn keyword_kind(text: &str) -> (k: Option<TokenKind>)
    ensures
        k == keyword(text@),
{
    if str_eq(text, "let") {
        Some(TokenKind::Let)
    } else if str_eq(text, "const") {
        Some(TokenKind::Const)
    } else if str_eq(text, "fn") {
        Some(TokenKind::Fn)
    } else if str_eq(text, "struct") {
        Some(TokenKind::Struct)
    } else if str_eq(text, "enum") {
        Some(TokenKind::Enum)
    } else if str_eq(text, "if") {
        Some(TokenKind::If)
    } else if str_eq(text, "else") {
        Some(TokenKind::Else)
    } else if str_eq(text, "for") {
        Some(TokenKind::For)
    } else if str_eq(text, "in") {
        Some(TokenKind::In)
    } else if str_eq(text, "while") {
        Some(TokenKind::While)
    } else if str_eq(text, "return") {
        Some(TokenKind::Return)
    } else if str_eq(text, "import") {
        Some(TokenKind::Import)
    } else if str_eq(text, "priv") {
        Some(TokenKind::Private)
    } else if str_eq(text, "match") {
        Some(TokenKind::Match)
    } else if str_eq(text, "true") {
        Some(TokenKind::True)
    } else if str_eq(text, "false") {
        Some(TokenKind::False)
    } else {
        None
    }
}

/// The punctuation token at the cursor, if one starts there.
fn lex_punctuation(cursor: &mut Cursor<'_>) -> (t: Option<Token>)
    requires
        old(cursor).wf(),
        peek_at(old(cursor).text(), old(cursor).state()) is Some,
    ensures
        final(cursor).wf(),
        final(cursor).text() == old(cursor).text(),
        final(cursor).source() == old(cursor).source(),
        ({
            let cs = old(cursor).text();
            let s = old(cursor).state();
            match punctuation(cs[s.pos as int], peek_next_at(cs, s)) {
                Some((k, n)) => {
                    let e = if n == 1 { bumped(cs, s) } else { bumped(cs, bumped(cs, s)) };
                    t matches Some(tk) && token_view(tk) == tok(k, Seq::empty(), s, e)
                        && final(cursor).state() == e
                },
                None => t is None && final(cursor).state() == s,
            }
        }),
{
    let ghost cs = cursor.text();
    let ghost s = cursor.state();
    let start = cursor.position();
    let c = match cursor.peek() {
        Some(c) => c,
        None => return None,
    };
    let next = cursor.peek_next();
    let (kind, two) = if c == '(' {
        (TokenKind::LParen, false)
    } else if c == ')' {
        (TokenKind::RParen, false)
    } else if c == '[' {
        (TokenKind::LBracket, false)
    } else if c == ']' {
        (TokenKind::RBracket, false)
    } else if c == '{' {
        (TokenKind::LBrace, false)
    } else if c == '}' {
        (TokenKind::RBrace, false)
    } else if c == ',' {
        (TokenKind::Comma, false)
    } else if c == ':' {
        (TokenKind::Colon, false)
    } else if c == ';' {
        (TokenKind::Semicolon, false)
    } else if c == '.' && next == Some('.') {
        (TokenKind::DotDot, true)
    } else if c == '.' {
        (TokenKind::Dot, false)
    } else if c == '-' && next == Some('>') {
        (TokenKind::Arrow, true)
    } else if c == '=' && next == Some('>') {
        (TokenKind::FatArrow, true)
    } else if c == '?' {
        (TokenKind::Question, false)
    } else if c == '+' {
        (TokenKind::Plus, false)
    } else if c == '-' {
        (TokenKind::Minus, false)
    } else if c == '*' {
        (TokenKind::Star, false)
    } else if c == '/' {
        (TokenKind::Slash, false)
    } else if c == '=' && next == Some('=') {
        (TokenKind::EqualEqual, true)
    } else if c == '=' {
        (TokenKind::Equal, false)
    } else if c == '!' && next == Some('=') {
        (TokenKind::BangEqual, true)
    } else if c == '!' {
        (TokenKind::Bang, false)
    } else if c == '<' && next == Some('=') {
        (TokenKind::LessEqual, true)
    } else if c == '<' {
        (TokenKind::Less, false)
    } else if c == '>' && next == Some('=') {
        (TokenKind::GreaterEqual, true)
    } else if c == '>' {
        (TokenKind::Greater, false)
    } else if c == '&' && next == Some('&') {
        (TokenKind::AndAnd, true)
    } else if c == '|' && next == Some('|') {
        (TokenKind::OrOr, true)
    } else {
        return None;
    };
    let _ = cursor.bump();
    if two {
        let _ = cursor.bump();
    }
    Some(Token::new(kind, Span::new(start, cursor.position())))
}

/// Skips the rest of a line comment, up to the line break or the end of the text.
fn skip_line_comment(cursor: &mut Cursor<'_>)
    requires
        old(cursor).wf(),
    ensures
        final(cursor).wf(),
        final(cursor).text() == old(cursor).text(),
        final(cursor).source() == old(cursor).source(),
        final(cursor).state() == skip_line(old(cursor).text(), old(cursor).state()),
{
    let ghost cs = cursor.text();
    let ghost target = skip_line(cs, cursor.state());
    loop
        invariant
            cursor.wf(),
            cursor.text() == cs,
            cs == old(cursor).text(),
            target == skip_line(cs, old(cursor).state()),
            cursor.source() == old(cursor).source(),
            skip_line(cs, cursor.state()) == target,
        ensures
            cursor.wf(),
            cursor.text() == cs,
            cursor.source() == old(cursor).source(),
            cursor.state() == target,
        decreases cs.len() - cursor.state().pos,
    {
        match cursor.peek() {
            Some(ch) => {
                if ch == '\n' || ch == '\r' {
                    break;
                }
                let _ = cursor.bump();
            },
            None => break,
        }
    }
}

/// Skips the rest of a block comment; whether its closing `*/` was found.
fn skip_block_comment(cursor: &mut Cursor<'_>) -> (closed: bool)
    requires
        old(cursor).wf(),
    ensures
        final(cursor).wf(),
        final(cursor).text() == old(cursor).text(),
        final(cursor).source() == old(cursor).source(),
        (closed, final(cursor).state()) == block_comment(old(cursor).text(), old(cursor).state()),
{
    let ghost cs = cursor.text();
    let ghost target = block_comment(cs, cursor.state());
    loop
        invariant_except_break
            block_comment(cs, cursor.state()) == target,
        invariant
            cursor.wf(),
            cursor.text() == cs,
            cs == old(cursor).text(),
            target == block_comment(cs, old(cursor).state()),
            cursor.source() == old(cursor).source(),
        ensures
            cursor.wf(),
            cursor.text() == cs,
            cursor.source() == old(cursor).source(),
            target.0,
            cursor.state() == target.1,
        decreases cs.len() - cursor.state().pos,
    {
        let here = cursor.peek();
        let after = cursor.peek_next();
        proof {
            grammar::lemma_bumped_advances(cs, cursor.state());
        }
        match here {
            Some(ch) => {
                if ch == '*' && after == Some('/') {
                    let _ = cursor.bump();
                    let _ = cursor.bump();
                    break;
                } else if ch == '\n' || ch == '\r' {
                    let _ = cursor.consume_newline();
                } else {
                    let _ = cursor.bump();
                }
            },
            None => {
                return false;
            },
        }
    }
    true
}

/// Lexes an identifier or keyword starting at the cursor.
fn lex_identifier(cursor: &mut Cursor<'_>) -> (t: Token)
    requires
        old(cursor).wf(),
        peek_at(old(cursor).text(), old(cursor).state()) is Some,
    ensures
        final(cursor).wf(),
        final(cursor).text() == old(cursor).text(),
        final(cursor).source() == old(cursor).source(),
        ({
            let cs = old(cursor).text();
            let s = old(cursor).state();
            let e = skip_ident(cs, bumped(cs, s));
            let text = cs.subrange(s.pos as int, e.pos as int);
            &&& final(cursor).state() == e
            &&& token_view(t) == match keyword(text) {
                Some(k) => tok(k, Seq::empty(), s, e),
                None => tok(TokenKind::Identifier(arbitrary()), text, s, e),
            }
        }),
{
    let ghost cs = cursor.text();
    let ghost s = cursor.state();
    proof {
        cursor.wf_facts();
    }
    let start = cursor.position();
    let start_offset = start.offset;
    let _ = cursor.bump();
    let ghost target = skip_ident(cs, cursor.state());
    loop
        invariant
            cursor.wf(),
            cursor.text() == cs,
            cursor.source() == old(cursor).source(),
            skip_ident(cs, cursor.state()) == target,
            cursor.state().pos >= s.pos,
            cursor.state().offset >= s.offset,
        ensures
            cursor.wf(),
            cursor.text() == cs,
            cursor.source() == old(cursor).source(),
            cursor.state() == target,
            cursor.state().offset >= s.offset,
        decreases cs.len() - cursor.state().pos,
    {
        match cursor.peek() {
            Some(next_ch) => {
                if !is_ident_continue(next_ch) {
                    break;
                }
                let _ = cursor.bump();
            },
            None => break,
        }
    }
    let end = cursor.position();
    proof {
        cursor.wf_facts();
        grammar::lemma_skip_advances(cs, bumped(cs, s));
        lemma_offset_boundary(cs, s.pos as int);
        lemma_offset_boundary(cs, cursor.state().pos as int);
        lemma_bytes_between(cs, s.pos as int, cursor.state().pos as int);
    }
    let text = cursor.slice(start_offset, end.offset);
    proof {
        vstd::utf8::encode_utf8_decode_utf8(text@);
    }
    let kind = match keyword_kind(text) {
        Some(k) => k,
        None => TokenKind::Identifier(owned(text)),
    };
    Token::new(kind, Span::new(start, end))
}

/// Whether lexing `tokens` then the rest of the text from the cursor gives `whole`.
pub open spec fn lexes_to(cs: Seq<char>, tokens: Seq<Token>, s: LexState, whole: LexOutcome) -> bool {
    prepend(views(tokens), lex_from(cs, s)) == whole
}

/// Lexes the construct at the cursor (which is not at the end of the text): whitespace
/// and comments are skipped, anything else adds one token.
fn lex_step(cursor: &mut Cursor<'_>, tokens: &mut Vec<Token>) -> (r: Result<(), LexError>)
    requires
        old(cursor).wf(),
        old(cursor).state().pos < old(cursor).text().len(),
    ensures
        final(cursor).wf(),
        final(cursor).text() == old(cursor).text(),
        final(cursor).source() == old(cursor).source(),
        r is Ok ==> final(cursor).state().pos > old(cursor).state().pos,
        r is Ok ==> prepend(views(final(tokens)@), lex_from(final(cursor).text(), final(cursor).state()))
            == prepend(views(old(tokens)@), lex_from(old(cursor).text(), old(cursor).state())),
        r matches Err(e) ==> lex_from(old(cursor).text(), old(cursor).state()) == LexOutcome::Failed(
            e.message@,
            e.span,
        ),
{
    let ghost cs = cursor.text();
    let ghost s = cursor.state();
    let ghost b = bumped(cs, s);
    let ghost tv = views(tokens@);
    proof {
        cursor.wf_facts();
        grammar::lemma_bumped_advances(cs, s);
        grammar::lemma_bumped_advances(cs, b);
        grammar::lemma_skip_advances(cs, b);
        grammar::lemma_skip_advances(cs, bumped(cs, b));
        grammar::lemma_scan_advances(cs, b, Seq::empty());
        grammar::lemma_skip_advances(cs, s);
        grammar::lemma_skip_advances(cs, bumped(cs, grammar::skip_digits(cs, s)));
    }
    let c = match cursor.peek() {
        Some(c) => c,
        None => return Ok(()),
    };
    let next = cursor.peek_next();
    if c == ' ' || c == '\t' {
        let _ = cursor.bump();
        return Ok(());
    }
    if c == '\n' || c == '\r' {
        let start = cursor.position();
        let _ = cursor.consume_newline();
        let token = Token::new(TokenKind::Newline, Span::new(start, cursor.position()));
        proof {
            lemma_prepend_push(tv, token_view(token), lex_from(cs, cursor.state()));
            lemma_views_push(tokens@, token);
        }
        tokens.push(token);
        return Ok(());
    }
    if c == '/' && next == Some('/') {
        let _ = cursor.bump();
        let _ = cursor.bump();
        skip_line_comment(cursor);
        return Ok(());
    }
    if c == '/' && next == Some('*') {
        let start = cursor.position();
        let _ = cursor.bump();
        let _ = cursor.bump();
        if skip_block_comment(cursor) {
            return Ok(());
        } else {
            return Err(LexError::new("unterminated block comment", Span::new(start, cursor.position())));
        }
    }
    if is_ident_start(c) {
        let token = lex_identifier(cursor);
        proof {
            lemma_prepend_push(tv, token_view(token), lex_from(cs, cursor.state()));
            lemma_views_push(tokens@, token);
        }
        tokens.push(token);
        return Ok(());
    }
    if is_ascii_digit(c) {
        let start = cursor.position();
        proof {
            lemma_offset_boundary(cs, s.pos as int);
        }
        let token = literals::lex_number(cursor, start);
        proof {
            cursor.wf_facts();
            lemma_offset_boundary(cs, cursor.state().pos as int);
            lemma_bytes_between(cs, s.pos as int, cursor.state().pos as int);
            lemma_prepend_push(tv, token_view(token), lex_from(cs, cursor.state()));
            lemma_views_push(tokens@, token);
        }
        tokens.push(token);
        return Ok(());
    }
    if c == '"' {
        let start = cursor.position();
        let token = match literals::lex_string(cursor, start) {
            Ok(t) => t,
            Err(e) => return Err(e),
        };
        proof {
            lemma_prepend_push(tv, token_view(token), lex_from(cs, cursor.state()));
            lemma_views_push(tokens@, token);
        }
        tokens.push(token);
        return Ok(());
    }
    let start = cursor.position();
    let token = match lex_punctuation(cursor) {
        Some(t) => t,
        None => {
            return Err(LexError::new("unexpected character", Span::new(start, cursor.position())));
        },
    };
    proof {
        lemma_prepend_push(tv, token_view(token), lex_from(cs, cursor.state()));
        lemma_views_push(tokens@, token);
    }
    tokens.push(token);
    Ok(())
}

/// Splits source text into tokens, ending with an end-of-file token.
pub fn lex(source: &str) -> (r: Result<Vec<Token>, LexError>)
    requires
        source.spec_bytes().len() < usize::MAX,
    ensures
        match lex_from(source@, start_state()) {
            LexOutcome::Done(ts) => r matches Ok(v) && views(v@) == ts,
            LexOutcome::Failed(m, sp) => r matches Err(e) && e.message@ == m && e.span == sp,
        },
{
    let mut cursor = Cursor::new(source);
    let ghost cs = source@;
    let ghost whole = lex_from(cs, start_state());
    let mut tokens: Vec<Token> = Vec::new();
    assert(views(tokens@) =~= Seq::<TokenView>::empty());
    proof {
        match whole {
            LexOutcome::Done(ts) => {
                assert(Seq::<TokenView>::empty() + ts =~= ts);
            },
            _ => {},
        }
    }
    while !cursor.is_eof()
        invariant
            cursor.wf(),
            cursor.text() == cs,
            cursor.source() == source,
            cs == source@,
            whole == lex_from(cs, start_state()),
            prepend(views(tokens@), lex_from(cs, cursor.state())) == whole,
        decreases cs.len() - cursor.state().pos,
    {
        match lex_step(&mut cursor, &mut tokens) {
            Ok(()) => {
                proof {
                    cursor.wf_facts();
                }
            },
            Err(e) => {
                return Err(e);
            },
        }
    }
    let position = cursor.position();
    let eof = Token::new(TokenKind::Eof, Span::new(position, position));
    proof {
        lemma_views_push(tokens@, eof);
        assert(views(tokens@).push(token_view(eof)) =~= views(tokens@) + seq![token_view(eof)]);
    }
    tokens.push(eof);
    Ok(tokens)
}

} // verus!
