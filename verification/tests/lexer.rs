use starc::lexer::{Lexer, TokenKind};

fn lex_source(src: &str) -> Vec<TokenKind> {
    let mut lexer = Lexer::new(src, "test.cx");
    lexer.lex_all().unwrap().into_iter().map(|t| t.kind).collect()
}

#[test]
fn test_basic_tokens() {
    let src = "let mut x = 42 // comment\nlet y = 3.14u32";
    let kinds = lex_source(src);
    assert_eq!(kinds.len(), 12);
    assert_eq!(
        kinds[..9].to_vec(),
        vec![
            TokenKind::Let,
            TokenKind::Mut,
            TokenKind::Ident("x".to_string()),
            TokenKind::Eq,
            TokenKind::Int(42, None),
            TokenKind::Semicolon,
            TokenKind::Let,
            TokenKind::Ident("y".to_string()),
            TokenKind::Eq,
        ]
    );
    match &kinds[9] {
        TokenKind::Float(text, suffix) => {
            assert_eq!(text.parse::<f64>().unwrap(), 3.14);
            assert_eq!(suffix, &Some("u32".to_string()));
        }
        other => panic!("expected a float, found {:?}", other),
    }
    assert_eq!(kinds[10..].to_vec(), vec![TokenKind::Semicolon, TokenKind::EOF]);
}

#[test]
fn test_newline_insertion() {
    let kinds = lex_source("x\ny");
    assert_eq!(
        kinds,
        vec![
            TokenKind::Ident("x".to_string()),
            TokenKind::Semicolon,
            TokenKind::Ident("y".to_string()),
            TokenKind::Semicolon,
            TokenKind::EOF
        ]
    );

    let kinds = lex_source("x +\ny");
    assert_eq!(
        kinds,
        vec![
            TokenKind::Ident("x".to_string()),
            TokenKind::Plus,
            TokenKind::Ident("y".to_string()),
            TokenKind::Semicolon,
            TokenKind::EOF
        ]
    );

    let kinds = lex_source("foo(\n  5\n)");
    assert_eq!(
        kinds,
        vec![
            TokenKind::Ident("foo".to_string()),
            TokenKind::LParen,
            TokenKind::Int(5, None),
            TokenKind::RParen,
            TokenKind::Semicolon,
            TokenKind::EOF
        ]
    );
}

#[test]
fn lex_all_ends_with_one_eof() {
    for src in ["", "fn main() {}", "let a = \"s\"\n\n", "x /* c */ y"] {
        let kinds = lex_source(src);
        assert_eq!(kinds.last(), Some(&TokenKind::EOF));
        assert_eq!(kinds.iter().filter(|k| **k == TokenKind::EOF).count(), 1);
    }
}

#[test]
fn empty_source_is_only_eof() {
    assert_eq!(lex_source(""), vec![TokenKind::EOF]);
}

#[test]
fn integer_radixes_and_underscores() {
    let kinds = lex_source("0xff 0b101 1_000");
    assert_eq!(kinds[0], TokenKind::Int(255, None));
    assert_eq!(kinds[1], TokenKind::Int(5, None));
    assert_eq!(kinds[2], TokenKind::Int(1000, None));
}

#[test]
fn string_literal_and_operators() {
    let kinds = lex_source("a == \"hi\" && b != c");
    assert_eq!(kinds[0], TokenKind::Ident("a".to_string()));
    assert_eq!(kinds[2], TokenKind::Str("hi".to_string()));
}

#[test]
fn unterminated_string_is_an_error() {
    let mut lexer = Lexer::new("\"abc", "t.cx");
    assert!(lexer.lex_all().is_err());
}

#[test]
fn line_and_col_start_at_one() {
    let lexer = Lexer::new("abc", "t.cx");
    assert_eq!(lexer.line(), 1);
    assert_eq!(lexer.col(), 1);
}

#[test]
fn float_with_suffix() {
    let kinds = lex_source("1.5f64");
    match &kinds[0] {
        TokenKind::Float(text, suffix) => {
            assert_eq!(text, "1.5");
            assert_eq!(suffix.as_deref(), Some("f64"));
        }
        other => panic!("expected a float, found {:?}", other),
    }
}
