use minilang::lexer::Lexer;
use minilang::token::{get_id_or_key_token, Token};

fn lex_all(source: &str) -> Vec<Token> {
    let mut lexer = Lexer::new(source.to_string());
    let mut tokens = Vec::new();
    loop {
        let t = lexer.get_next_token();
        let done = t == Token::EOF;
        tokens.push(t);
        if done {
            return tokens;
        }
    }
}

#[test]
fn lex_tokens() {
    let source = r#"
            var x : int := 1 + (2 - 1);
            x := 0;
            print x;
            var y : string := "a\"hello\"b\nworld\\";
            !true & false
            for x in 0..10 do
                print x;
            end for
        "#;
    let mut lexer = Lexer::new(source.to_string());
    let expected_tokens = vec![
        Token::Var,
        Token::Identifier("x".to_string()),
        Token::Colon,
        Token::IntegerType,
        Token::Assign,
        Token::IntegerConstant("1".to_string()),
        Token::Plus,
        Token::LeftBracket,
        Token::IntegerConstant("2".to_string()),
        Token::Minus,
        Token::IntegerConstant("1".to_string()),
        Token::RightBracket,
        Token::SemiColon,
        Token::Identifier("x".to_string()),
        Token::Assign,
        Token::IntegerConstant("0".to_string()),
        Token::SemiColon,
        Token::Print,
        Token::Identifier("x".to_string()),
        Token::SemiColon,
        Token::Var,
        Token::Identifier("y".to_string()),
        Token::Colon,
        Token::StringType,
        Token::Assign,
        Token::StringValue("a\"hello\"b\nworld\\".to_string()),
        Token::SemiColon,
        Token::Not,
        Token::True,
        Token::And,
        Token::False,
        Token::For,
        Token::Identifier("x".to_string()),
        Token::In,
        Token::IntegerConstant("0".to_string()),
        Token::Range,
        Token::IntegerConstant("10".to_string()),
        Token::Do,
        Token::Print,
        Token::Identifier("x".to_string()),
        Token::SemiColon,
        Token::End,
        Token::For,
        Token::EOF,
    ];
    for expected in expected_tokens {
        let token = lexer.get_next_token();
        assert_eq!(token, expected);
    }
}

#[test]
fn single_lexeme_fragments_round_trip() {
    let bare = vec![
        Token::Plus,
        Token::Minus,
        Token::Multiplication,
        Token::Division,
        Token::Equals,
        Token::LessThan,
        Token::GreaterThan,
        Token::Assign,
        Token::Var,
        Token::Print,
        Token::Colon,
        Token::True,
        Token::False,
        Token::Read,
        Token::And,
        Token::Not,
        Token::For,
        Token::In,
        Token::Do,
        Token::End,
        Token::Range,
        Token::Assert,
        Token::LeftBracket,
        Token::RightBracket,
        Token::SemiColon,
        Token::IntegerType,
        Token::StringType,
        Token::BooleanType,
    ];
    for t in bare {
        let text = t.to_string();
        let tokens = lex_all(&text);
        assert_eq!(tokens, vec![t.clone(), Token::EOF], "fragment {:?}", text);
    }
    assert_eq!(lex_all("count_2"), vec![Token::Identifier("count_2".to_string()), Token::EOF]);
    assert_eq!(lex_all("0042"), vec![Token::IntegerConstant("0042".to_string()), Token::EOF]);
    assert_eq!(lex_all("\"a b\""), vec![Token::StringValue("a b".to_string()), Token::EOF]);
}

#[test]
fn token_display_forms() {
    assert_eq!(Token::Assign.to_string(), ":=");
    assert_eq!(Token::Range.to_string(), "..");
    assert_eq!(Token::BooleanType.to_string(), "bool");
    assert_eq!(Token::EOF.to_string(), "EOF");
    assert_eq!(Token::Illegal.to_string(), "Illegal Token!");
    assert_eq!(Token::Identifier("abc".to_string()).to_string(), "abc");
    assert_eq!(Token::StringValue("q\"".to_string()).to_string(), "q\"");
}

#[test]
fn keyword_table() {
    assert_eq!(get_id_or_key_token("for"), Token::For);
    assert_eq!(get_id_or_key_token("read"), Token::Read);
    assert_eq!(get_id_or_key_token("string"), Token::StringType);
    assert_eq!(get_id_or_key_token("format"), Token::Identifier("format".to_string()));
    assert_eq!(get_id_or_key_token("For"), Token::Identifier("For".to_string()));
}

#[test]
fn illegal_characters_and_lone_dot() {
    assert_eq!(lex_all("#"), vec![Token::Illegal, Token::EOF]);
    assert_eq!(lex_all(". x"), vec![Token::Illegal, Token::Identifier("x".to_string()), Token::EOF]);
    assert_eq!(lex_all(":"), vec![Token::Colon, Token::EOF]);
    assert_eq!(lex_all("_a"), vec![Token::Illegal, Token::Identifier("a".to_string()), Token::EOF]);
}

#[test]
fn identifiers_stop_at_non_word_characters() {
    assert_eq!(
        lex_all("a1_b+c"),
        vec![
            Token::Identifier("a1_b".to_string()),
            Token::Plus,
            Token::Identifier("c".to_string()),
            Token::EOF
        ]
    );
    assert_eq!(
        lex_all("12ab"),
        vec![Token::IntegerConstant("12".to_string()), Token::Identifier("ab".to_string()), Token::EOF]
    );
}

#[test]
fn string_escapes_and_bad_escape() {
    assert_eq!(lex_all(r#""a\tb""#), vec![Token::StringValue("a\tb".to_string()), Token::EOF]);
    assert_eq!(lex_all(r#""a\qb" ;"#), vec![Token::Illegal, Token::SemiColon, Token::EOF]);
    assert_eq!(lex_all("\"abc"), vec![Token::StringValue("abc".to_string()), Token::EOF]);
    assert_eq!(lex_all("\"ab\\"), vec![Token::Illegal, Token::EOF]);
}

#[test]
fn end_of_input_is_repeated() {
    let mut lexer = Lexer::new("  \n\t ".to_string());
    assert_eq!(lexer.get_next_token(), Token::EOF);
    assert_eq!(lexer.get_next_token(), Token::EOF);
    assert_eq!(lexer.get_next_token(), Token::EOF);
}
