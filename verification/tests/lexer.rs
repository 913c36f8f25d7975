use inscribe::lexer::{lex, lex_number, lex_string, Cursor, Position, TokenKind};

fn kinds(source: &str) -> Vec<TokenKind> {
    lex(source)
        .expect("lexing should succeed")
        .into_iter()
        .map(|token| token.kind)
        .collect()
}

#[test]
fn lexes_core_language_tokens() {
    let tokens = lex(
        "import io.file\nfn main() {\n    let user = User { name: \"Antonio\" }\n    data = readFile(\"data.txt\") ?\n}\n",
    )
    .expect("lexing should succeed");

    assert!(tokens
        .iter()
        .any(|token| matches!(token.kind, TokenKind::Import)));
    assert!(tokens
        .iter()
        .any(|token| matches!(token.kind, TokenKind::Fn)));
    assert!(tokens
        .iter()
        .any(|token| matches!(token.kind, TokenKind::Question)));
}

#[test]
fn skips_comments_and_keeps_newlines() {
    let tokens = lex("// hello\nlet value = 1\n/* block\ncomment */\nvalue\n")
        .expect("lexing should succeed");

    let newline_count = tokens
        .iter()
        .filter(|token| matches!(token.kind, TokenKind::Newline))
        .count();
    assert!(newline_count >= 3);
}

#[test]
fn keywords_identifiers_and_literals() {
    assert_eq!(
        kinds("priv fn x1 = 3.25 + 7"),
        vec![
            TokenKind::Private,
            TokenKind::Fn,
            TokenKind::Identifier("x1".to_string()),
            TokenKind::Equal,
            TokenKind::Float("3.25".to_string()),
            TokenKind::Plus,
            TokenKind::Integer("7".to_string()),
            TokenKind::Eof,
        ]
    );
    assert_eq!(
        kinds("1.x"),
        vec![
            TokenKind::Integer("1".to_string()),
            TokenKind::Dot,
            TokenKind::Identifier("x".to_string()),
            TokenKind::Eof,
        ]
    );
}

#[test]
fn punctuation_takes_the_longest_match() {
    assert_eq!(
        kinds("a..b -> c => d == e != f <= g >= h && i || j"),
        vec![
            TokenKind::Identifier("a".to_string()),
            TokenKind::DotDot,
            TokenKind::Identifier("b".to_string()),
            TokenKind::Arrow,
            TokenKind::Identifier("c".to_string()),
            TokenKind::FatArrow,
            TokenKind::Identifier("d".to_string()),
            TokenKind::EqualEqual,
            TokenKind::Identifier("e".to_string()),
            TokenKind::BangEqual,
            TokenKind::Identifier("f".to_string()),
            TokenKind::LessEqual,
            TokenKind::Identifier("g".to_string()),
            TokenKind::GreaterEqual,
            TokenKind::Identifier("h".to_string()),
            TokenKind::AndAnd,
            TokenKind::Identifier("i".to_string()),
            TokenKind::OrOr,
            TokenKind::Identifier("j".to_string()),
            TokenKind::Eof,
        ]
    );
    assert_eq!(
        kinds("[x];"),
        vec![
            TokenKind::LBracket,
            TokenKind::Identifier("x".to_string()),
            TokenKind::RBracket,
            TokenKind::Semicolon,
            TokenKind::Eof,
        ]
    );
}

#[test]
fn string_escapes_and_errors() {
    assert_eq!(
        kinds("\"a\\n\\\"b\""),
        vec![TokenKind::String("a\n\"b".to_string()), TokenKind::Eof]
    );
    let error = lex("\"abc").expect_err("unterminated strings fail");
    assert_eq!(error.message, "unterminated string literal");
    let error = lex("\"a\\q\"").expect_err("unknown escapes fail");
    assert_eq!(error.message, "unsupported escape sequence `\\q`");
    let error = lex("\"a\\").expect_err("escape at the end fails");
    assert_eq!(error.message, "unterminated string escape");
    let error = lex("\"a\nb\"").expect_err("newlines end strings");
    assert_eq!(error.message, "unterminated string literal");
}

#[test]
fn other_lexing_errors() {
    let error = lex("x /* open").expect_err("open block comments fail");
    assert_eq!(error.message, "unterminated block comment");
    let error = lex("let a = #").expect_err("unknown characters fail");
    assert_eq!(error.message, "unexpected character");
    assert_eq!(error.span.start.offset, 8);
}

#[test]
fn positions_count_lines_and_columns() {
    let tokens = lex("a\r\nbb").expect("lexing should succeed");
    assert_eq!(tokens.len(), 4);
    assert_eq!(tokens[1].kind, TokenKind::Newline);
    assert_eq!(tokens[1].span.end.offset, 3);
    assert_eq!(tokens[2].span.start, Position::new(3, 2, 1));
    assert_eq!(tokens[2].span.end, Position::new(5, 2, 3));
    assert_eq!(tokens[3].span.start, tokens[3].span.end);
}

#[test]
fn cursor_and_literal_helpers() {
    let mut cursor = Cursor::new("42.5;");
    let start = cursor.position();
    let token = lex_number(&mut cursor, start);
    assert_eq!(token.kind, TokenKind::Float("42.5".to_string()));
    assert_eq!(cursor.peek(), Some(';'));
    assert_eq!(cursor.bump(), Some(';'));
    assert!(cursor.is_eof());
    assert_eq!(cursor.bump(), None);

    let mut strings = Cursor::new("\"hi\" rest");
    let start = strings.position();
    let token = lex_string(&mut strings, start).expect("string should lex");
    assert_eq!(token.kind, TokenKind::String("hi".to_string()));
    assert_eq!(strings.position().offset, 4);
    assert_eq!(strings.slice(0, 4), "\"hi\"");
}
