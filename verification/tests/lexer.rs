use craft::{SimpleLexer, SimpleToken, SimpleTokenReader, Token, TokenReader, TokenType};

fn tokens_of(script: &str) -> Vec<(TokenType, String)> {
    let lexer = SimpleLexer::new();
    let mut reader = lexer.tokenize(script);
    let mut tokens = Vec::new();
    while let Some(token) = reader.read() {
        tokens.push((token.get_type(), token.get_text().to_string()));
    }
    tokens
}

fn token(kind: TokenType, text: &str) -> (TokenType, String) {
    (kind, text.to_string())
}

#[test]
fn simple_lexer_test() {
    assert_eq!(
        tokens_of("int age = 45;"),
        vec![
            token(TokenType::Int, "int"),
            token(TokenType::Identifier, "age"),
            token(TokenType::Assignment, "="),
            token(TokenType::IntLiteral, "45"),
            token(TokenType::SemiColon, ";"),
        ]
    );
    assert_eq!(
        tokens_of("inta age = 45;"),
        vec![
            token(TokenType::Identifier, "inta"),
            token(TokenType::Identifier, "age"),
            token(TokenType::Assignment, "="),
            token(TokenType::IntLiteral, "45"),
            token(TokenType::SemiColon, ";"),
        ]
    );
    assert_eq!(
        tokens_of("in age = 45;"),
        vec![
            token(TokenType::Identifier, "in"),
            token(TokenType::Identifier, "age"),
            token(TokenType::Assignment, "="),
            token(TokenType::IntLiteral, "45"),
            token(TokenType::SemiColon, ";"),
        ]
    );
    assert_eq!(
        tokens_of("age >= 45;"),
        vec![
            token(TokenType::Identifier, "age"),
            token(TokenType::GE, ">="),
            token(TokenType::IntLiteral, "45"),
            token(TokenType::SemiColon, ";"),
        ]
    );
    assert_eq!(
        tokens_of("age > 45;"),
        vec![
            token(TokenType::Identifier, "age"),
            token(TokenType::GT, ">"),
            token(TokenType::IntLiteral, "45"),
            token(TokenType::SemiColon, ";"),
        ]
    );
    assert_eq!(
        tokens_of("2+3*5"),
        vec![
            token(TokenType::IntLiteral, "2"),
            token(TokenType::Plus, "+"),
            token(TokenType::IntLiteral, "3"),
            token(TokenType::Star, "*"),
            token(TokenType::IntLiteral, "5"),
        ]
    );
}

#[test]
fn keyword_is_not_a_prefix_of_a_name() {
    let tokens = tokens_of("inta age = 45;");
    assert_eq!(tokens[0], token(TokenType::Identifier, "inta"));
    assert_ne!(tokens[0].0, TokenType::Int);
    assert_eq!(tokens.len(), 5);
}

#[test]
fn empty_text_has_no_tokens() {
    assert_eq!(tokens_of(""), vec![]);
    assert_eq!(tokens_of("   \t\n"), vec![]);
}

#[test]
fn every_symbol_is_a_token() {
    assert_eq!(
        tokens_of("+-*/;()=>>="),
        vec![
            token(TokenType::Plus, "+"),
            token(TokenType::Minus, "-"),
            token(TokenType::Star, "*"),
            token(TokenType::Slash, "/"),
            token(TokenType::SemiColon, ";"),
            token(TokenType::LeftParen, "("),
            token(TokenType::RightParen, ")"),
            token(TokenType::Assignment, "="),
            token(TokenType::GT, ">"),
            token(TokenType::GE, ">="),
        ]
    );
}

#[test]
fn greater_at_the_end_of_the_text() {
    assert_eq!(
        tokens_of("a>"),
        vec![token(TokenType::Identifier, "a"), token(TokenType::GT, ">")]
    );
    assert_eq!(
        tokens_of(">=="),
        vec![token(TokenType::GE, ">="), token(TokenType::Assignment, "=")]
    );
}

#[test]
fn unknown_characters_are_passed_over() {
    assert_eq!(
        tokens_of("a $ b"),
        vec![token(TokenType::Identifier, "a"), token(TokenType::Identifier, "b")]
    );
    assert_eq!(
        tokens_of("1#2"),
        vec![token(TokenType::IntLiteral, "1"), token(TokenType::IntLiteral, "2")]
    );
    assert_eq!(tokens_of("_"), vec![]);
    assert_eq!(tokens_of("<"), vec![]);
}

#[test]
fn int_is_a_keyword_only_before_another_character() {
    assert_eq!(tokens_of("int"), vec![token(TokenType::Identifier, "int")]);
    assert_eq!(
        tokens_of("int;"),
        vec![token(TokenType::Int, "int"), token(TokenType::SemiColon, ";")]
    );
    assert_eq!(
        tokens_of("int x"),
        vec![token(TokenType::Int, "int"), token(TokenType::Identifier, "x")]
    );
    assert_eq!(tokens_of("int1 "), vec![token(TokenType::Identifier, "int1")]);
    assert_eq!(tokens_of("integer "), vec![token(TokenType::Identifier, "integer")]);
}

#[test]
fn words_that_begin_like_int() {
    assert_eq!(tokens_of("i "), vec![token(TokenType::Identifier, "i")]);
    assert_eq!(tokens_of("if "), vec![token(TokenType::Identifier, "if")]);
    assert_eq!(tokens_of("ix9 "), vec![token(TokenType::Identifier, "ix9")]);
    assert_eq!(tokens_of("inx "), vec![token(TokenType::Identifier, "inx")]);
    assert_eq!(tokens_of("tint "), vec![token(TokenType::Identifier, "tint")]);
}

#[test]
fn a_literal_is_a_run_of_digits() {
    assert_eq!(tokens_of("007"), vec![token(TokenType::IntLiteral, "007")]);
    assert_eq!(
        tokens_of("45abc"),
        vec![token(TokenType::IntLiteral, "45"), token(TokenType::Identifier, "abc")]
    );
    assert_eq!(tokens_of("abc45"), vec![token(TokenType::Identifier, "abc45")]);
}

#[test]
fn names_may_hold_letters_of_any_script() {
    assert_eq!(
        tokens_of("变量 = 1;"),
        vec![
            token(TokenType::Identifier, "变量"),
            token(TokenType::Assignment, "="),
            token(TokenType::IntLiteral, "1"),
            token(TokenType::SemiColon, ";"),
        ]
    );
}

#[test]
fn a_new_token_has_no_kind_and_no_text() {
    let token = SimpleToken::new();
    assert_eq!(token.get_text(), "");
}

#[test]
fn a_token_keeps_its_kind_and_text() {
    let token = SimpleToken::new2(TokenType::Identifier, "age".to_string());
    assert_eq!(token.get_type(), TokenType::Identifier);
    assert_eq!(token.get_text(), "age");
}

fn three_tokens() -> SimpleTokenReader {
    SimpleTokenReader::new(vec![
        SimpleToken::new2(TokenType::Identifier, "a".to_string()),
        SimpleToken::new2(TokenType::Plus, "+".to_string()),
        SimpleToken::new2(TokenType::IntLiteral, "1".to_string()),
    ])
}

#[test]
fn read_steps_and_peek_stays() {
    let mut reader = three_tokens();
    assert_eq!(reader.get_position(), 0);
    assert_eq!(reader.peek().unwrap().get_text(), "a");
    assert_eq!(reader.get_position(), 0);
    assert_eq!(reader.read().unwrap().get_text(), "a");
    assert_eq!(reader.get_position(), 1);
    assert_eq!(reader.read().unwrap().get_type(), TokenType::Plus);
    assert_eq!(reader.read().unwrap().get_text(), "1");
    assert_eq!(reader.get_position(), 3);
    assert!(reader.peek().is_none());
    assert!(reader.read().is_none());
    assert_eq!(reader.get_position(), 3);
}

#[test]
fn unread_stops_at_the_start() {
    let mut reader = three_tokens();
    reader.unread();
    assert_eq!(reader.get_position(), 0);
    let _ = reader.read();
    let _ = reader.read();
    reader.unread();
    assert_eq!(reader.get_position(), 1);
    assert_eq!(reader.peek().unwrap().get_text(), "+");
}

#[test]
fn set_position_moves_only_onto_a_token() {
    let mut reader = three_tokens();
    reader.set_position(2);
    assert_eq!(reader.get_position(), 2);
    reader.set_position(3);
    assert_eq!(reader.get_position(), 2);
    reader.set_position(100);
    assert_eq!(reader.get_position(), 2);
    reader.set_position(0);
    assert_eq!(reader.get_position(), 0);
}

#[test]
fn an_empty_stream_stays_at_its_start() {
    let mut reader = SimpleTokenReader::new(Vec::new());
    assert!(reader.peek().is_none());
    assert!(reader.read().is_none());
    reader.unread();
    reader.set_position(0);
    assert_eq!(reader.get_position(), 0);
}

#[test]
fn tokenize_starts_at_the_first_token() {
    let lexer = SimpleLexer::new();
    let reader = lexer.tokenize("a b");
    assert_eq!(reader.get_position(), 0);
    assert_eq!(reader.peek().unwrap().get_text(), "a");
}

fn classified_tokens(chars: Vec<(char, bool)>) -> Vec<(TokenType, String)> {
    let lexer = SimpleLexer::new();
    let mut reader = lexer.tokenize_classified(&chars);
    let mut tokens = Vec::new();
    while let Some(token) = reader.read() {
        tokens.push((token.get_type(), token.get_text().to_string()));
    }
    tokens
}

#[test]
fn the_automaton_takes_letters_as_it_is_told() {
    assert_eq!(
        classified_tokens(vec![('a', true), ('1', false), (';', false)]),
        vec![token(TokenType::Identifier, "a1"), token(TokenType::SemiColon, ";")]
    );
    assert_eq!(classified_tokens(vec![('a', false), ('b', true)]), vec![
        token(TokenType::Identifier, "b")
    ]);
    assert_eq!(classified_tokens(vec![('_', true), ('x', true)]), vec![
        token(TokenType::Identifier, "_x")
    ]);
    assert_eq!(classified_tokens(vec![('7', true), ('+', true)]), vec![
        token(TokenType::IntLiteral, "7"),
        token(TokenType::Plus, "+")
    ]);
    assert_eq!(
        classified_tokens(vec![('i', true), ('n', true), ('t', true), (' ', false)]),
        vec![token(TokenType::Int, "int")]
    );
    assert_eq!(
        classified_tokens(vec![('i', true), ('n', false), ('t', true), (' ', false)]),
        vec![token(TokenType::Identifier, "i"), token(TokenType::Identifier, "t")]
    );
    assert_eq!(classified_tokens(vec![]), vec![]);
}
