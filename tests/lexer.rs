use funclang::{Lexer, Token, TokenType};

fn lexer(s: &str) -> Lexer {
    Lexer::new(s.to_string())
}

fn all(s: &str) -> Vec<Token> {
    Lexer::tokenize(s.to_string())
}

#[test]
fn punctuation_maps_one_to_one() {
    let mut lx = lexer("(){},<>:;");
    let kinds = [
        TokenType::LParen,
        TokenType::RParen,
        TokenType::LBrace,
        TokenType::RBrace,
        TokenType::Comma,
        TokenType::LAngle,
        TokenType::RAngle,
        TokenType::Colon,
        TokenType::Semicolon,
    ];
    for (i, k) in kinds.iter().enumerate() {
        let t = lx.next();
        assert_eq!(&t.token_type, k);
        assert_eq!(t.value.chars().count(), 1);
        assert_eq!(t.char_pos, i as i32 + 1);
        assert_eq!(t.line, 1);
    }
    assert_eq!(lx.next().token_type, TokenType::EOF);
    assert_eq!(lx.next().token_type, TokenType::EOF);
}

#[test]
fn punctuation_with_spaces_tokenizes_in_order() {
    let ts = all(" ( ;\n> ");
    let kinds: Vec<TokenType> = ts.iter().map(|t| t.token_type).collect();
    assert_eq!(
        kinds,
        vec![TokenType::LParen, TokenType::Semicolon, TokenType::RAngle]
    );
    assert_eq!((ts[2].line, ts[2].char_pos), (2, 1));
}

#[test]
fn digits_after_letters_extend_identifier() {
    let ts = all("abc123");
    assert_eq!(ts.len(), 1);
    assert_eq!(ts[0].token_type, TokenType::Identifier);
    assert_eq!(ts[0].value, "abc123");
    let ts = all("abc123(");
    assert_eq!(ts.len(), 2);
    assert_eq!(ts[0].value, "abc123");
    assert_eq!(ts[0].char_pos, 1);
    assert_eq!(ts[1].token_type, TokenType::LParen);
    assert_eq!(ts[1].value, "(");
}

#[test]
fn digit_group_separator_kept() {
    let ts = all("1_000");
    assert_eq!(ts.len(), 1);
    assert_eq!(ts[0].token_type, TokenType::Number);
    assert_eq!(ts[0].value, "1_000");
}

#[test]
fn trailing_underscore_ends_number() {
    let ts = all("1_");
    assert_eq!(ts.len(), 2);
    assert_eq!(ts[0].token_type, TokenType::Number);
    assert_eq!(ts[0].value, "1");
    assert_eq!(ts[1].token_type, TokenType::Identifier);
    assert_eq!(ts[1].value, "_");
    assert_eq!(ts[1].char_pos, 2);
}

#[test]
fn double_underscore_ends_number() {
    let ts = all("1__0");
    assert_eq!(ts[0].value, "1");
    assert_eq!(ts[1].token_type, TokenType::Identifier);
    assert_eq!(ts[1].value, "__0");
}

#[test]
fn number_then_identifier() {
    let ts = all("12ab");
    assert_eq!(ts[0].token_type, TokenType::Number);
    assert_eq!(ts[0].value, "12");
    assert_eq!(ts[1].token_type, TokenType::Identifier);
    assert_eq!(ts[1].value, "ab");
    assert_eq!(ts[1].char_pos, 3);
}

#[test]
fn identifier_goes_on_with_unicode_letters() {
    let ts = all("abé9 x");
    assert_eq!(ts[0].value, "abé9");
    assert_eq!(ts[1].value, "x");
    assert_eq!(ts[1].char_pos, 6);
}

#[test]
fn identifier_stops_at_symbol() {
    let ts = all("ab-cd");
    assert_eq!(ts[0].value, "ab");
    assert_eq!(ts[1].value, "cd");
    assert_eq!(ts[1].char_pos, 4);
}

#[test]
fn tokenize_leaves_out_eof() {
    let ts = all("x(12)");
    let got: Vec<(TokenType, String, i32)> =
        ts.iter().map(|t| (t.token_type, t.value.clone(), t.char_pos)).collect();
    assert_eq!(
        got,
        vec![
            (TokenType::Identifier, "x".to_string(), 1),
            (TokenType::LParen, "(".to_string(), 2),
            (TokenType::Number, "12".to_string(), 3),
            (TokenType::RParen, ")".to_string(), 5),
        ]
    );
    assert!(all("").is_empty());
}

#[test]
fn peek_is_idempotent() {
    let mut lx = lexer("  foo bar");
    let a = lx.peek();
    let b = lx.peek();
    assert_eq!(a.token_type, b.token_type);
    assert_eq!(a.value, b.value);
    assert_eq!((a.line, a.char_pos), (b.line, b.char_pos));
    let c = lx.next();
    assert_eq!(c.value, "foo");
    assert_eq!((c.line, c.char_pos), (1, 3));
    let d = lx.next();
    assert_eq!(d.value, "bar");
    assert_eq!(lx.next().token_type, TokenType::EOF);
}

#[test]
fn positions_follow_lines_and_columns() {
    let ts = all("a\n  bc\n\n d");
    assert_eq!(ts.len(), 3);
    assert_eq!((ts[0].line, ts[0].char_pos), (1, 1));
    assert_eq!((ts[1].line, ts[1].char_pos), (2, 3));
    assert_eq!((ts[2].line, ts[2].char_pos), (4, 2));
    let mut lx = lexer("a\n  bc\n\n d");
    for _ in 0..3 {
        lx.next();
    }
    let end = lx.next();
    assert_eq!(end.token_type, TokenType::EOF);
    assert_eq!((end.line, end.char_pos), (4, 3));
}

#[test]
fn unknown_characters_are_passed_over() {
    let ts = all("a $ @b");
    assert_eq!(ts.len(), 2);
    assert_eq!(ts[1].value, "b");
    assert_eq!(ts[1].char_pos, 6);
}

#[test]
fn empty_source_gives_eof() {
    let mut lx = lexer("");
    let t = lx.next();
    assert_eq!(t.token_type, TokenType::EOF);
    assert_eq!(t.value, "");
    assert_eq!((t.line, t.char_pos), (1, 1));
}

#[test]
fn try_token_steps_one_character() {
    let mut lx = lexer(" x");
    assert!(lx.try_token().is_none());
    let t = lx.try_token().unwrap();
    assert_eq!(t.value, "x");
    assert_eq!(t.char_pos, 2);
    assert_eq!(lx.try_token().unwrap().token_type, TokenType::EOF);
}

#[test]
fn token_new_keeps_fields() {
    let t = Token::new(TokenType::Number, "7".to_string(), 3, 4);
    assert_eq!(t.token_type, TokenType::Number);
    assert_eq!(t.value, "7");
    assert_eq!(t.char_pos, 3);
    assert_eq!(t.line, 4);
}
