//! The token grammar of Mentalogue, stated over the characters of a source text.
//! Each function says where a construct that starts at a cursor state ends, and what
//! it yields; `lex_from` strings them together into the token stream of a text.

use vstd::prelude::*;
use super::cursor::{LexState, bumped, newline_consumed, peek_at, peek_next_at, position_of};
use super::token::{Span, Token, TokenKind, kind_tag, kind_text};

verus! {

/// A token as plain values: kind number, carried text and span.
pub ghost struct TokenView {
    pub tag: nat,
    pub text: Seq<char>,
    pub span: Span,
}

pub open spec fn token_view(t: Token) -> TokenView {
    TokenView { tag: kind_tag(t.kind), text: kind_text(t.kind), span: t.span }
}

pub open spec fn span_of(from: LexState, to: LexState) -> Span {
    Span { start: position_of(from), end: position_of(to) }
}

pub open spec fn tok(kind: TokenKind, text: Seq<char>, from: LexState, to: LexState) -> TokenView {
    TokenView { tag: kind_tag(kind), text, span: span_of(from, to) }
}

pub open spec fn is_digit(c: char) -> bool {
    '0' <= c && c <= '9'
}

pub open spec fn is_alpha(c: char) -> bool {
    ('a' <= c && c <= 'z') || ('A' <= c && c <= 'Z')
}

pub open spec fn ident_start(c: char) -> bool {
    c == '_' || is_alpha(c)
}

pub open spec fn ident_continue(c: char) -> bool {
    c == '_' || is_alpha(c) || is_digit(c)
}

pub proof fn lemma_bumped_advances(cs: Seq<char>, s: LexState)
    ensures
        bumped(cs, s).pos >= s.pos,
        s.pos < cs.len() ==> bumped(cs, s).pos == s.pos + 1,
        s.pos <= cs.len() ==> bumped(cs, s).pos <= cs.len(),
{
}

/// The state after the run of digits at `s`.
pub open spec fn skip_digits(cs: Seq<char>, s: LexState) -> LexState
    decreases cs.len() - s.pos,
{
    if s.pos < cs.len() && is_digit(cs[s.pos as int]) {
        skip_digits(cs, bumped(cs, s))
    } else {
        s
    }
}

/// The state after the run of identifier characters at `s`.
pub open spec fn skip_ident(cs: Seq<char>, s: LexState) -> LexState
    decreases cs.len() - s.pos,
{
    if s.pos < cs.len() && ident_continue(cs[s.pos as int]) {
        skip_ident(cs, bumped(cs, s))
    } else {
        s
    }
}

/// The state at the end of the line (before its line break) or of the text.
pub open spec fn skip_line(cs: Seq<char>, s: LexState) -> LexState
    decreases cs.len() - s.pos,
{
    if s.pos < cs.len() && cs[s.pos as int] != '\n' && cs[s.pos as int] != '\r' {
        skip_line(cs, bumped(cs, s))
    } else {
        s
    }
}

/// The rest of a block comment from `s`: whether its `*/` was found, and the state
/// after it (or at the end of the text).
pub open spec fn block_comment(cs: Seq<char>, s: LexState) -> (bool, LexState)
    decreases cs.len() - s.pos,
{
    if s.pos >= cs.len() {
        (false, s)
    } else if cs[s.pos as int] == '*' && peek_next_at(cs, s) == Some('/') {
        (true, bumped(cs, bumped(cs, s)))
    } else if cs[s.pos as int] == '\n' || cs[s.pos as int] == '\r' {
        block_comment(cs, newline_consumed(cs, s))
    } else {
        block_comment(cs, bumped(cs, s))
    }
}

/// A number at `s`: whether it is a float (digits, a dot, digits), and where it ends.
pub open spec fn number_end(cs: Seq<char>, s: LexState) -> (bool, LexState) {
    let s1 = skip_digits(cs, s);
    if peek_at(cs, s1) == Some('.') && (peek_next_at(cs, s1) matches Some(d) && is_digit(d)) {
        (true, skip_digits(cs, bumped(cs, s1)))
    } else {
        (false, s1)
    }
}

/// The outcome of reading the rest of a string literal.
pub ghost enum StringScan {
    /// The literal closed: its value and the state after the closing quote.
    Closed(Seq<char>, LexState),
    /// The literal is malformed: the message, and the state where reading stopped.
    Failed(Seq<char>, LexState),
}

/// The value of an escape character, if supported.
pub open spec fn escape_value(e: char) -> Option<char> {
    if e == 'n' {
        Some('\n')
    } else if e == 'r' {
        Some('\r')
    } else if e == 't' {
        Some('\t')
    } else if e == '"' {
        Some('"')
    } else if e == '\\' {
        Some('\\')
    } else {
        None
    }
}

/// Reads a string literal body from `s` (after the opening quote), with `value` read so far.
pub open spec fn scan_string(cs: Seq<char>, s: LexState, value: Seq<char>) -> StringScan
    decreases cs.len() - s.pos,
{
    if s.pos >= cs.len() {
        StringScan::Failed("unterminated string literal"@, s)
    } else {
        let c = cs[s.pos as int];
        if c == '"' {
            StringScan::Closed(value, bumped(cs, s))
        } else if c == '\\' {
            let s1 = bumped(cs, s);
            if s1.pos >= cs.len() {
                StringScan::Failed("unterminated string escape"@, s1)
            } else {
                let e = cs[s1.pos as int];
                let s2 = bumped(cs, s1);
                match escape_value(e) {
                    Some(v) => scan_string(cs, s2, value.push(v)),
                    None => StringScan::Failed(
                        "unsupported escape sequence `\\"@ + seq![e] + "`"@,
                        s2,
                    ),
                }
            }
        } else if c == '\n' || c == '\r' {
            StringScan::Failed("unterminated string literal"@, s)
        } else {
            scan_string(cs, bumped(cs, s), value.push(c))
        }
    }
}

/// The keyword spelled by `text`, if any.
pub open spec fn keyword(text: Seq<char>) -> Option<TokenKind> {
    if text == "let"@ {
        Some(TokenKind::Let)
    } else if text == "const"@ {
        Some(TokenKind::Const)
    } else if text == "fn"@ {
        Some(TokenKind::Fn)
    } else if text == "struct"@ {
        Some(TokenKind::Struct)
    } else if text == "enum"@ {
        Some(TokenKind::Enum)
    } else if text == "if"@ {
        Some(TokenKind::If)
    } else if text == "else"@ {
        Some(TokenKind::Else)
    } else if text == "for"@ {
        Some(TokenKind::For)
    } else if text == "in"@ {
        Some(TokenKind::In)
    } else if text == "while"@ {
        Some(TokenKind::While)
    } else if text == "return"@ {
        Some(TokenKind::Return)
    } else if text == "import"@ {
        Some(TokenKind::Import)
    } else if text == "priv"@ {
        Some(TokenKind::Private)
    } else if text == "match"@ {
        Some(TokenKind::Match)
    } else if text == "true"@ {
        Some(TokenKind::True)
    } else if text == "false"@ {
        Some(TokenKind::False)
    } else {
        None
    }
}

/// The punctuation token that starts with `c` (followed by `next`), and how many
/// characters it takes; two-character forms win over their one-character prefixes.
pub open spec fn punctuation(c: char, next: Option<char>) -> Option<(TokenKind, nat)> {
    if c == '(' {
        Some((TokenKind::LParen, 1))
    } else if c == ')' {
        Some((TokenKind::RParen, 1))
    } else if c == '[' {
        Some((TokenKind::LBracket, 1))
    } else if c == ']' {
        Some((TokenKind::RBracket, 1))
    } else if c == '{' {
        Some((TokenKind::LBrace, 1))
    } else if c == '}' {
        Some((TokenKind::RBrace, 1))
    } else if c == ',' {
        Some((TokenKind::Comma, 1))
    } else if c == ':' {
        Some((TokenKind::Colon, 1))
    } else if c == ';' {
        Some((TokenKind::Semicolon, 1))
    } else if c == '.' && next == Some('.') {
        Some((TokenKind::DotDot, 2))
    } else if c == '.' {
        Some((TokenKind::Dot, 1))
    } else if c == '-' && next == Some('>') {
        Some((TokenKind::Arrow, 2))
    } else if c == '=' && next == Some('>') {
        Some((TokenKind::FatArrow, 2))
    } else if c == '?' {
        Some((TokenKind::Question, 1))
    } else if c == '+' {
        Some((TokenKind::Plus, 1))
    } else if c == '-' {
        Some((TokenKind::Minus, 1))
    } else if c == '*' {
        Some((TokenKind::Star, 1))
    } else if c == '/' {
        Some((TokenKind::Slash, 1))
    } else if c == '=' && next == Some('=') {
        Some((TokenKind::EqualEqual, 2))
    } else if c == '=' {
        Some((TokenKind::Equal, 1))
    } else if c == '!' && next == Some('=') {
        Some((TokenKind::BangEqual, 2))
    } else if c == '!' {
        Some((TokenKind::Bang, 1))
    } else if c == '<' && next == Some('=') {
        Some((TokenKind::LessEqual, 2))
    } else if c == '<' {
        Some((TokenKind::Less, 1))
    } else if c == '>' && next == Some('=') {
        Some((TokenKind::GreaterEqual, 2))
    } else if c == '>' {
        Some((TokenKind::Greater, 1))
    } else if c == '&' && next == Some('&') {
        Some((TokenKind::AndAnd, 2))
    } else if c == '|' && next == Some('|') {
        Some((TokenKind::OrOr, 2))
    } else {
        None
    }
}

/// The result of lexing: the tokens, or the message and span of the first error.
pub ghost enum LexOutcome {
    Done(Seq<TokenView>),
    Failed(Seq<char>, Span),
}

/// Puts the tokens `ts` in front of an outcome.
pub open spec fn prepend(ts: Seq<TokenView>, o: LexOutcome) -> LexOutcome {
    match o {
        LexOutcome::Done(rest) => LexOutcome::Done(ts + rest),
        LexOutcome::Failed(m, sp) => LexOutcome::Failed(m, sp),
    }
}

pub proof fn lemma_skip_advances(cs: Seq<char>, s: LexState)
    ensures
        skip_digits(cs, s).pos >= s.pos,
        skip_ident(cs, s).pos >= s.pos,
        skip_line(cs, s).pos >= s.pos,
        block_comment(cs, s).1.pos >= s.pos,
        s.pos <= cs.len() ==> skip_digits(cs, s).pos <= cs.len(),
        s.pos <= cs.len() ==> skip_ident(cs, s).pos <= cs.len(),
        s.pos <= cs.len() ==> skip_line(cs, s).pos <= cs.len(),
        s.pos <= cs.len() ==> block_comment(cs, s).1.pos <= cs.len(),
    decreases cs.len() - s.pos,
{
    if s.pos < cs.len() {
        lemma_skip_advances(cs, bumped(cs, s));
        let n = newline_consumed(cs, s);
        if cs[s.pos as int] == '\n' || cs[s.pos as int] == '\r' {
            lemma_skip_advances(cs, n);
        }
    }
}

pub proof fn lemma_scan_advances(cs: Seq<char>, s: LexState, value: Seq<char>)
    ensures
        match scan_string(cs, s, value) {
            StringScan::Closed(_, e) => e.pos > s.pos && (s.pos <= cs.len() ==> e.pos <= cs.len()),
            StringScan::Failed(_, e) => e.pos >= s.pos && (s.pos <= cs.len() ==> e.pos <= cs.len()),
        },
    decreases cs.len() - s.pos,
{
    if s.pos < cs.len() {
        let c = cs[s.pos as int];
        let s1 = bumped(cs, s);
        if c == '\\' && s1.pos < cs.len() {
            let e = cs[s1.pos as int];
            let s2 = bumped(cs, s1);
            if let Some(v) = escape_value(e) {
                lemma_scan_advances(cs, s2, value.push(v));
            }
        } else if c != '"' && c != '\\' && c != '\n' && c != '\r' {
            lemma_scan_advances(cs, s1, value.push(c));
        }
    }
}

/// The token stream of `cs` from state `s`, up to and including the end-of-file token.
pub open spec fn lex_from(cs: Seq<char>, s: LexState) -> LexOutcome
    decreases cs.len() - s.pos,
{
    if s.pos >= cs.len() {
        LexOutcome::Done(seq![tok(TokenKind::Eof, Seq::empty(), s, s)])
    } else {
        let c = cs[s.pos as int];
        let next = peek_next_at(cs, s);
        let b = bumped(cs, s);
        proof {
            lemma_bumped_advances(cs, s);
            lemma_bumped_advances(cs, b);
            lemma_skip_advances(cs, b);
            lemma_skip_advances(cs, bumped(cs, b));
            lemma_scan_advances(cs, b, Seq::empty());
        }
        if c == ' ' || c == '\t' {
            lex_from(cs, b)
        } else if c == '\n' || c == '\r' {
            let e = newline_consumed(cs, s);
            prepend(seq![tok(TokenKind::Newline, Seq::empty(), s, e)], lex_from(cs, e))
        } else if c == '/' && next == Some('/') {
            lex_from(cs, skip_line(cs, bumped(cs, b)))
        } else if c == '/' && next == Some('*') {
            let (closed, e) = block_comment(cs, bumped(cs, b));
            if closed {
                lex_from(cs, e)
            } else {
                LexOutcome::Failed("unterminated block comment"@, span_of(s, e))
            }
        } else if ident_start(c) {
            let e = skip_ident(cs, b);
            let text = cs.subrange(s.pos as int, e.pos as int);
            let t = match keyword(text) {
                Some(k) => tok(k, Seq::empty(), s, e),
                None => tok(TokenKind::Identifier(arbitrary()), text, s, e),
            };
            prepend(seq![t], lex_from(cs, e))
        } else if is_digit(c) {
            proof {
                lemma_skip_advances(cs, s);
                lemma_skip_advances(cs, bumped(cs, skip_digits(cs, s)));
            }
            let (float, e) = number_end(cs, s);
            let text = cs.subrange(s.pos as int, e.pos as int);
            let kind = if float { TokenKind::Float(arbitrary()) } else { TokenKind::Integer(arbitrary()) };
            prepend(seq![tok(kind, text, s, e)], lex_from(cs, e))
        } else if c == '"' {
            match scan_string(cs, b, Seq::empty()) {
                StringScan::Closed(v, e) => prepend(
                    seq![tok(TokenKind::String(arbitrary()), v, s, e)],
                    lex_from(cs, e),
                ),
                StringScan::Failed(m, e) => LexOutcome::Failed(m, span_of(s, e)),
            }
        } else {
            match punctuation(c, next) {
                Some((k, n)) => {
                    let e = if n == 1 { b } else { bumped(cs, b) };
                    prepend(seq![tok(k, Seq::empty(), s, e)], lex_from(cs, e))
                },
                None => LexOutcome::Failed("unexpected character"@, span_of(s, s)),
            }
        }
    }
}


/// A keyword is spelled exactly as the token it lexes to is quoted in diagnostics: `true`
/// lexes to the token described as `` `true` ``, `false` to `` `false` ``, and so on.
pub proof fn lemma_keyword_spelling(text: Seq<char>)
    ensures
        keyword(text) matches Some(k) ==> crate::lexer::token::kind_description(k) == "`"@ + text + "`"@,
{
    reveal_strlit("`");
    reveal_strlit("let");
    reveal_strlit("`let`");
    reveal_strlit("const");
    reveal_strlit("`const`");
    reveal_strlit("fn");
    reveal_strlit("`fn`");
    reveal_strlit("struct");
    reveal_strlit("`struct`");
    reveal_strlit("enum");
    reveal_strlit("`enum`");
    reveal_strlit("if");
    reveal_strlit("`if`");
    reveal_strlit("else");
    reveal_strlit("`else`");
    reveal_strlit("for");
    reveal_strlit("`for`");
    reveal_strlit("in");
    reveal_strlit("`in`");
    reveal_strlit("while");
    reveal_strlit("`while`");
    reveal_strlit("return");
    reveal_strlit("`return`");
    reveal_strlit("import");
    reveal_strlit("`import`");
    reveal_strlit("priv");
    reveal_strlit("`priv`");
    reveal_strlit("match");
    reveal_strlit("`match`");
    reveal_strlit("true");
    reveal_strlit("`true`");
    reveal_strlit("false");
    reveal_strlit("`false`");
    if let Some(k) = keyword(text) {
        assert(crate::lexer::token::kind_description(k) =~= "`"@ + text + "`"@);
    }
}


/// A punctuation token is spelled exactly as it is quoted in diagnostics: `<=` lexes to the
/// token described as `` `<=` `` and takes two characters, `<` alone to `` `<` ``.
pub proof fn lemma_punctuation_spelling(c: char, next: Option<char>)
    ensures
        punctuation(c, next) matches Some((k, n)) ==> (n == 1 || n == 2) && crate::lexer::token::kind_description(k) == "`"@
            + (if n == 1 { seq![c] } else { seq![c, next->0] }) + "`"@,
{
    reveal_strlit("`");
    reveal_strlit("`(`");
    reveal_strlit("`)`");
    reveal_strlit("`[`");
    reveal_strlit("`]`");
    reveal_strlit("`{`");
    reveal_strlit("`}`");
    reveal_strlit("`,`");
    reveal_strlit("`:`");
    reveal_strlit("`;`");
    reveal_strlit("`..`");
    reveal_strlit("`.`");
    reveal_strlit("`->`");
    reveal_strlit("`=>`");
    reveal_strlit("`?`");
    reveal_strlit("`+`");
    reveal_strlit("`-`");
    reveal_strlit("`*`");
    reveal_strlit("`/`");
    reveal_strlit("`==`");
    reveal_strlit("`=`");
    reveal_strlit("`!=`");
    reveal_strlit("`!`");
    reveal_strlit("`<=`");
    reveal_strlit("`<`");
    reveal_strlit("`>=`");
    reveal_strlit("`>`");
    reveal_strlit("`&&`");
    reveal_strlit("`||`");
    if let Some((k, n)) = punctuation(c, next) {
        assert(crate::lexer::token::kind_description(k) =~= "`"@ + (if n == 1 { seq![c] } else { seq![c, next->0] }) + "`"@);
    }
}

} // verus!
