use ryha::lexer::{Lexer, Token};

fn tokens(input: &str) -> Vec<Token> {
    let mut lexer = Lexer::new(input);
    let mut out = Vec::new();
    loop {
        let t = lexer.next_token();
        let end = t == Token::Eof;
        out.push(t);
        if end {
            break;
        }
    }
    out
}

#[test]
fn lexes_a_let_statement() {
    assert_eq!(
        tokens("let five = 5;"),
        vec![
            Token::Let,
            Token::Ident("five".to_string()),
            Token::Assign,
            Token::Int(5),
            Token::Semicolon,
            Token::Eof
        ]
    );
}

#[test]
fn lexes_two_character_operators() {
    assert_eq!(
        tokens("a == b != !c = d"),
        vec![
            Token::Ident("a".to_string()),
            Token::Eq,
            Token::Ident("b".to_string()),
            Token::NotEq,
            Token::Bang,
            Token::Ident("c".to_string()),
            Token::Assign,
            Token::Ident("d".to_string()),
            Token::Eof
        ]
    );
}

#[test]
fn lexes_keywords_strings_and_punctuation() {
    assert_eq!(
        tokens("fn(x, y) { if (true) { return \"ok\"; } else { false } }"),
        vec![
            Token::Function,
            Token::LParen,
            Token::Ident("x".to_string()),
            Token::Comma,
            Token::Ident("y".to_string()),
            Token::RParen,
            Token::LBrace,
            Token::If,
            Token::LParen,
            Token::True,
            Token::RParen,
            Token::LBrace,
            Token::Return,
            Token::String("ok".to_string()),
            Token::Semicolon,
            Token::RBrace,
            Token::Else,
            Token::LBrace,
            Token::False,
            Token::RBrace,
            Token::RBrace,
            Token::Eof
        ]
    );
}

#[test]
fn lexes_arithmetic_and_comparison() {
    assert_eq!(
        tokens("-1+2*3/4<5>6"),
        vec![
            Token::Minus,
            Token::Int(1),
            Token::Plus,
            Token::Int(2),
            Token::Asterisk,
            Token::Int(3),
            Token::Slash,
            Token::Int(4),
            Token::Lt,
            Token::Int(5),
            Token::Gt,
            Token::Int(6),
            Token::Eof
        ]
    );
}

#[test]
fn unknown_characters_and_huge_numbers_are_illegal() {
    assert_eq!(
        tokens("@ 99999999999999999999 9223372036854775807"),
        vec![Token::Illegal, Token::Illegal, Token::Int(i64::MAX), Token::Eof]
    );
}

#[test]
fn unterminated_string_runs_to_the_end() {
    assert_eq!(tokens("\"abc"), vec![Token::String("abc".to_string()), Token::Eof]);
}

#[test]
fn eof_repeats_after_the_end() {
    let mut lexer = Lexer::new("x");
    assert_eq!(lexer.next_token(), Token::Ident("x".to_string()));
    assert_eq!(lexer.next_token(), Token::Eof);
    assert_eq!(lexer.next_token(), Token::Eof);
}

#[test]
fn debug_text_matches_debug_formatting() {
    let samples = vec![
        Token::Illegal,
        Token::Eof,
        Token::Ident("abc".to_string()),
        Token::Int(-42),
        Token::Int(i64::MIN),
        Token::Int(0),
        Token::String("a \"q\"\n".to_string()),
        Token::Assign,
        Token::NotEq,
        Token::LBrace,
        Token::Return,
    ];
    for t in samples {
        assert_eq!(t.debug_text(), format!("{:?}", t));
    }
}

#[test]
fn duplicate_and_equals_agree() {
    let t = Token::Ident("q".to_string());
    let d = t.duplicate();
    assert!(t.equals(&d));
    assert!(!t.equals(&Token::Ident("r".to_string())));
    assert!(!Token::Int(1).equals(&Token::Int(2)));
    assert!(Token::Comma.equals(&Token::Comma));
}
