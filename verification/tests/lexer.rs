use cpl::lang::errors::Error;
use cpl::lang::lexer::{tokenize, Literal, Token, TokenType};

fn kinds(tokens: &[Token]) -> Vec<TokenType> {
    tokens.iter().map(|t| t.token_type).collect()
}

fn lexemes(tokens: &[Token]) -> Vec<String> {
    tokens.iter().map(|t| t.lexeme.clone()).collect()
}

fn places(tokens: &[Token]) -> Vec<(u32, u32)> {
    tokens.iter().map(|t| (t.line, t.column)).collect()
}

#[test]
fn empty_source_is_one_end_token() {
    let tokens = tokenize("");
    assert_eq!(kinds(&tokens), vec![TokenType::Eof]);
    assert_eq!(tokens[0].lexeme, "");
    assert!(tokens[0].literal.is_none());
    assert_eq!((tokens[0].line, tokens[0].column), (1, 1));
}

#[test]
fn number_with_two_points_splits_at_the_second() {
    let tokens = tokenize("1.2.3");
    assert_eq!(
        kinds(&tokens),
        vec![TokenType::Number, TokenType::Dot, TokenType::Number, TokenType::Eof]
    );
    assert_eq!(lexemes(&tokens), vec!["1.2", ".", "3", ""]);
    assert!(matches!(&tokens[0].literal, Some(Literal::Number(n)) if n == "1.2"));
    assert_eq!(tokens[0].lexeme.parse::<f64>(), Ok(1.2));
    assert!(matches!(&tokens[2].literal, Some(Literal::Number(n)) if n == "3"));
    assert_eq!(places(&tokens), vec![(1, 1), (1, 4), (1, 5), (1, 6)]);
}

#[test]
fn number_keeps_a_trailing_point() {
    let tokens = tokenize("1..2");
    assert_eq!(lexemes(&tokens), vec!["1.", ".", "2", ""]);
    assert_eq!(
        kinds(&tokens),
        vec![TokenType::Number, TokenType::Dot, TokenType::Number, TokenType::Eof]
    );
    assert_eq!(tokens[0].lexeme.parse::<f64>(), Ok(1.0));
}

#[test]
fn every_kind_spaced_out_gives_back_its_lexeme() {
    let all: Vec<(&str, TokenType)> = vec![
        ("(", TokenType::LeftParen),
        (")", TokenType::RightParen),
        ("{", TokenType::LeftBrace),
        ("}", TokenType::RightBrace),
        (",", TokenType::Comma),
        (".", TokenType::Dot),
        ("-", TokenType::Minus),
        ("+", TokenType::Plus),
        (";", TokenType::Semicolon),
        ("/", TokenType::Slash),
        ("*", TokenType::Star),
        ("!", TokenType::Bang),
        ("!=", TokenType::BangEqual),
        ("=", TokenType::Equal),
        ("==", TokenType::EqualEqual),
        (">", TokenType::Greater),
        (">=", TokenType::GreaterEqual),
        ("<", TokenType::Less),
        ("<=", TokenType::LessEqual),
        ("some_name1", TokenType::Identifier),
        ("\"some text\"", TokenType::String),
        ("12.5", TokenType::Number),
        ("and", TokenType::And),
        ("class", TokenType::Class),
        ("else", TokenType::Else),
        ("false", TokenType::False),
        ("fn", TokenType::Function),
        ("for", TokenType::For),
        ("if", TokenType::If),
        ("nil", TokenType::Nil),
        ("or", TokenType::Or),
        ("print", TokenType::Print),
        ("return", TokenType::Return),
        ("super", TokenType::Super),
        ("this", TokenType::This),
        ("true", TokenType::True),
        ("let", TokenType::Variable),
        ("while", TokenType::While),
        ("break", TokenType::Break),
        ("continue", TokenType::Continue),
    ];
    let words: Vec<&str> = all.iter().map(|(w, _)| *w).collect();
    let source = words.join(" ");
    let tokens = tokenize(&source);
    assert_eq!(tokens.len(), all.len() + 1);
    for (i, (word, kind)) in all.iter().enumerate() {
        assert_eq!(tokens[i].lexeme, *word);
        assert_eq!(tokens[i].token_type, *kind);
    }
    assert_eq!(tokens[all.len()].token_type, TokenType::Eof);
    let joined: String = tokens.iter().map(|t| t.lexeme.as_str()).collect();
    assert_eq!(joined, words.concat());
}

#[test]
fn newline_inside_a_string_moves_later_tokens_down() {
    let tokens = tokenize("a \"x\ny\" b\nc");
    assert_eq!(
        kinds(&tokens),
        vec![
            TokenType::Identifier,
            TokenType::String,
            TokenType::Identifier,
            TokenType::Identifier,
            TokenType::Eof
        ]
    );
    assert_eq!(places(&tokens), vec![(1, 1), (1, 3), (2, 4), (3, 1), (3, 2)]);
    assert_eq!(tokens[1].lexeme, "\"x\ny\"");
    assert!(matches!(&tokens[1].literal, Some(Literal::String(s)) if s == "x\ny"));
}

#[test]
fn columns_count_every_character() {
    let tokens = tokenize("let x1 = 10;\n\tif (x1 >= 2) { }");
    assert_eq!(
        lexemes(&tokens),
        vec!["let", "x1", "=", "10", ";", "if", "(", "x1", ">=", "2", ")", "{", "}", ""]
    );
    assert_eq!(
        places(&tokens),
        vec![
            (1, 1),
            (1, 5),
            (1, 8),
            (1, 10),
            (1, 12),
            (2, 2),
            (2, 5),
            (2, 6),
            (2, 9),
            (2, 12),
            (2, 13),
            (2, 15),
            (2, 17),
            (2, 18)
        ]
    );
}

#[test]
fn operators_take_a_following_equal_sign() {
    let tokens = tokenize("!====<=<>=>");
    assert_eq!(
        kinds(&tokens),
        vec![
            TokenType::BangEqual,
            TokenType::EqualEqual,
            TokenType::Equal,
            TokenType::LessEqual,
            TokenType::Less,
            TokenType::GreaterEqual,
            TokenType::Greater,
            TokenType::Eof
        ]
    );
    assert_eq!(lexemes(&tokens), vec!["!=", "==", "=", "<=", "<", ">=", ">", ""]);
}

#[test]
fn words_are_keywords_only_as_a_whole() {
    let tokens = tokenize("and andy _and fn_ whiles Let");
    assert_eq!(
        kinds(&tokens),
        vec![
            TokenType::And,
            TokenType::Identifier,
            TokenType::Identifier,
            TokenType::Identifier,
            TokenType::Identifier,
            TokenType::Identifier,
            TokenType::Eof
        ]
    );
    for token in &tokens {
        assert!(token.literal.is_none());
    }
}

#[test]
fn identifiers_may_hold_letters_beyond_ascii() {
    let tokens = tokenize("größe = ñ2;");
    assert_eq!(lexemes(&tokens), vec!["größe", "=", "ñ2", ";", ""]);
    assert_eq!(tokens[0].token_type, TokenType::Identifier);
    assert_eq!(tokens[2].token_type, TokenType::Identifier);
    assert_eq!(places(&tokens), vec![(1, 1), (1, 7), (1, 9), (1, 11), (1, 12)]);
}

#[test]
fn characters_that_begin_no_token_are_passed_over() {
    let tokens = tokenize("a @ # b ° ⁂");
    assert_eq!(lexemes(&tokens), vec!["a", "b", ""]);
    assert_eq!(places(&tokens), vec![(1, 1), (1, 7), (1, 12)]);
}

#[test]
fn unterminated_string_is_dropped() {
    let tokens = tokenize("a \"bc\nd");
    assert_eq!(kinds(&tokens), vec![TokenType::Identifier, TokenType::Eof]);
    assert_eq!(places(&tokens), vec![(1, 1), (2, 2)]);
}

#[test]
fn string_value_is_what_stands_between_the_quotes() {
    let tokens = tokenize("\"\" \"a b\"");
    assert_eq!(kinds(&tokens), vec![TokenType::String, TokenType::String, TokenType::Eof]);
    assert_eq!(tokens[0].lexeme, "\"\"");
    assert!(matches!(&tokens[0].literal, Some(Literal::String(s)) if s.is_empty()));
    assert_eq!(tokens[1].lexeme, "\"a b\"");
    assert!(matches!(&tokens[1].literal, Some(Literal::String(s)) if s == "a b"));
}

#[test]
fn number_is_followed_by_a_word_without_space() {
    let tokens = tokenize("12ab 3.x");
    assert_eq!(lexemes(&tokens), vec!["12", "ab", "3.", "x", ""]);
    assert_eq!(
        kinds(&tokens),
        vec![
            TokenType::Number,
            TokenType::Identifier,
            TokenType::Number,
            TokenType::Identifier,
            TokenType::Eof
        ]
    );
}

#[test]
fn carriage_return_and_tab_are_space() {
    let tokens = tokenize("a\r\n\tb");
    assert_eq!(places(&tokens), vec![(1, 1), (2, 2), (2, 3)]);
}

#[test]
fn token_clone_keeps_every_field() {
    let tokens = tokenize("\"s\"");
    let copy = tokens[0].clone();
    assert_eq!(copy.token_type, TokenType::String);
    assert_eq!(copy.lexeme, "\"s\"");
    assert!(matches!(&copy.literal, Some(Literal::String(s)) if s == "s"));
    assert_eq!((copy.line, copy.column), (1, 1));
}

#[test]
fn diagnostic_text_has_line_column_and_message() {
    let error = Error { line: 3, column: 14, message: String::from("something is wrong") };
    assert_eq!(error.to_string(), "[line 3:column 14]: something is wrong");
    let first = Error { line: 0, column: 1205, message: String::new() };
    assert_eq!(first.to_string(), "[line 0:column 1205]: ");
    let copy = error.clone();
    assert_eq!((copy.line, copy.column, copy.message.as_str()), (3, 14, "something is wrong"));
}
