use jzero::lexer::{lex, Token};
use jzero::tok::{map_token, LexicalError, ParseResult, Tok};

#[test]
fn scanned_tokens_map_to_parser_tokens() {
    let ok = lex("public x = 4.5 + 7; if (false) \"s\" : z").unwrap();
    let mapped: Vec<Tok> = ok.iter().map(|t| map_token(t.token, t.text.as_str())).collect();
    assert_eq!(
        mapped,
        vec![
            Tok::Public,
            Tok::Identifier("x"),
            Tok::Assign,
            Tok::DoubleLit("4.5"),
            Tok::Plus,
            Tok::IntLit("7"),
            Tok::Semicolon,
            Tok::If,
            Tok::LParen,
            Tok::BoolLit(false),
            Tok::RParen,
            Tok::StringLit("\"s\""),
            Tok::Semicolon,
            Tok::Identifier("z"),
        ]
    );
}

#[test]
fn token_text_reads_as_source() {
    assert_eq!(Tok::StringKw.text(), "string");
    assert_eq!(Tok::LBrace.text(), "{");
    assert_eq!(Tok::LogicalOr.text(), "||");
    assert_eq!(Tok::BoolLit(true).text(), "true");
    assert_eq!(Tok::Identifier("abc").text(), "abc");
    assert_eq!(map_token(Token::MinusAssign, "-=").text(), "-=");
}

#[test]
fn lexical_error_message() {
    let e = LexicalError { pos: 17, msg: "bad".to_string() };
    assert_eq!(e.message(), "lexical error at byte 17: bad");
    let r = ParseResult { success: false, errors: vec![e.message()] };
    assert!(!r.success);
    assert_eq!(r.errors.len(), 1);
}
