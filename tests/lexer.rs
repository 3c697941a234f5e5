use jzero::lexer::{lex, Token};

#[test]
fn test_hello_jzero() {
    let source = r#"public class hello {
    public static void main(String argv[]) {
        System.out.println("hello, jzero!");
    }
}"#;

    let tokens = lex(source).expect("lexing should succeed");

    for token in &tokens {
        println!("{:?}", token);
    }

    assert_eq!(tokens[0].token, Token::Public);
    assert_eq!(tokens[0].line, 1);

    assert_eq!(tokens[1].token, Token::Class);
    assert_eq!(tokens[1].line, 1);

    assert_eq!(tokens[2].token, Token::Identifier);
    assert_eq!(tokens[2].text, "hello");
    assert_eq!(tokens[2].line, 1);

    let string_tok = tokens.iter().find(|t| t.token == Token::StringLit).unwrap();
    assert_eq!(string_tok.text, r#""hello, jzero!""#);
    assert_eq!(string_tok.line, 3);

    let last = tokens.last().unwrap();
    assert_eq!(last.token, Token::RBrace);
    assert_eq!(last.line, 5);
}

#[test]
fn test_block_comment_line_tracking() {
    let source = "int /* comment\nspanning\nlines */ x";

    let tokens = lex(source).expect("lexing should succeed");

    assert_eq!(tokens[0].token, Token::Int);
    assert_eq!(tokens[0].line, 1);

    assert_eq!(tokens[1].token, Token::Identifier);
    assert_eq!(tokens[1].text, "x");
    assert_eq!(tokens[1].line, 3);
}

#[test]
fn test_unrecognized_character() {
    let source = "int @ x";

    let errors = lex(source).unwrap_err();

    assert_eq!(errors.len(), 1);
    assert_eq!(errors[0].text, "@");
    assert_eq!(errors[0].line, 1);
}

fn kinds(src: &str) -> Vec<Token> {
    lex(src).expect("lexing should succeed").into_iter().map(|t| t.token).collect()
}

#[test]
fn longest_operator_wins() {
    assert_eq!(
        kinds("a<=b>=c==d!=e&&f||g+=h-=i=j<k>l!m"),
        vec![
            Token::Identifier,
            Token::LessEqual,
            Token::Identifier,
            Token::GreaterEqual,
            Token::Identifier,
            Token::EqualEqual,
            Token::Identifier,
            Token::NotEqual,
            Token::Identifier,
            Token::LogicalAnd,
            Token::Identifier,
            Token::LogicalOr,
            Token::Identifier,
            Token::PlusAssign,
            Token::Identifier,
            Token::MinusAssign,
            Token::Identifier,
            Token::Assign,
            Token::Identifier,
            Token::Less,
            Token::Identifier,
            Token::Greater,
            Token::Identifier,
            Token::Bang,
            Token::Identifier,
        ]
    );
}

#[test]
fn keywords_only_as_whole_words() {
    assert_eq!(
        kinds("class classy while_ true false null string"),
        vec![
            Token::Class,
            Token::Identifier,
            Token::Identifier,
            Token::True,
            Token::False,
            Token::Null,
            Token::StringKw,
        ]
    );
}

#[test]
fn numbers() {
    let toks = lex("12 3.5 4. .25 6e10 7E-2 8e x.y 1.5e+3").unwrap();
    let pairs: Vec<(Token, &str)> = toks.iter().map(|t| (t.token, t.text.as_str())).collect();
    assert_eq!(
        pairs,
        vec![
            (Token::IntLit, "12"),
            (Token::DoubleLit, "3.5"),
            (Token::DoubleLit, "4."),
            (Token::DoubleLit, ".25"),
            (Token::DoubleLit, "6e10"),
            (Token::DoubleLit, "7E-2"),
            (Token::IntLit, "8"),
            (Token::Identifier, "e"),
            (Token::Identifier, "x"),
            (Token::Dot, "."),
            (Token::Identifier, "y"),
            (Token::DoubleLit, "1.5e+3"),
        ]
    );
}

#[test]
fn comments_and_lines() {
    let toks = lex("a // note\nb /* x */ c\n\n/*\n*/d /").unwrap();
    let seen: Vec<(String, usize)> = toks.iter().map(|t| (t.text.clone(), t.line)).collect();
    assert_eq!(
        seen,
        vec![
            ("a".to_string(), 1),
            ("b".to_string(), 2),
            ("c".to_string(), 2),
            ("d".to_string(), 5),
            ("/".to_string(), 5),
        ]
    );
    let end = lex("x // trailing").unwrap();
    assert_eq!(end.len(), 1);
    let after = lex("// only\ny").unwrap();
    assert_eq!(after[0].line, 2);
}

#[test]
fn unterminated_block_comment_is_a_slash_and_a_star() {
    assert_eq!(kinds("/* x"), vec![Token::Slash, Token::Star, Token::Identifier]);
}

#[test]
fn strings_and_bad_characters() {
    let toks = lex("\"a\nb\" z").unwrap();
    assert_eq!(toks[0].token, Token::StringLit);
    assert_eq!(toks[0].text, "\"a\nb\"");
    assert_eq!(toks[1].line, 1);
    let errs = lex("x & y # \"open\n").unwrap_err();
    let texts: Vec<(&str, usize)> = errs.iter().map(|e| (e.text.as_str(), e.line)).collect();
    assert_eq!(texts, vec![("&", 1), ("#", 1), ("\"", 1)]);
    assert_eq!(errs[0].message(), "line 1: unrecognized character: \"&\"");
    assert!(lex("").unwrap().is_empty());
}

#[test]
fn hidden_tokens() {
    assert!(Token::Newline.is_hidden());
    assert!(Token::LineComment.is_hidden());
    assert!(Token::BlockComment.is_hidden());
    assert!(!Token::Identifier.is_hidden());
    assert_eq!(kinds(" \t\r\u{c}(){}[];:,*%"), vec![
        Token::LParen,
        Token::RParen,
        Token::LBrace,
        Token::RBrace,
        Token::LBracket,
        Token::RBracket,
        Token::Semicolon,
        Token::Colon,
        Token::Comma,
        Token::Star,
        Token::Percent,
    ]);
}

#[test]
fn error_messages_escape_like_debug_strings() {
    let errs = lex("a \u{7} \"b").unwrap_err();
    assert_eq!(errs.len(), 2);
    for e in &errs {
        assert_eq!(
            e.message(),
            format!("line {}: unrecognized character: {:?}", e.line, e.text)
        );
    }
    assert_eq!(errs[0].message(), "line 1: unrecognized character: \"\\u{7}\"");
    assert_eq!(errs[1].message(), "line 1: unrecognized character: \"\\\"\"");
}
