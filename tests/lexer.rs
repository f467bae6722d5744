use adamath::lexer::{Lexer, LexerError, Token, TokenType};

fn scan(lexer: &mut Lexer) -> Token {
    match lexer.scan_token() {
        Ok(Some(token)) => token,
        other => panic!("expected a token, got {:?}", other),
    }
}

fn scan_all(source: &str) -> Vec<Token> {
    let mut lexer = Lexer::new(source);
    let mut tokens = Vec::new();
    loop {
        let token = scan(&mut lexer);
        let done = token.token_type == TokenType::EndOfExpression;
        tokens.push(token);
        if done {
            return tokens;
        }
    }
}

fn tok(token_type: TokenType, start: usize, end: usize) -> Token {
    Token::new(token_type, start..end)
}

fn constant(text: &str) -> TokenType {
    TokenType::Constant(text.to_string())
}

fn variable(text: &str) -> TokenType {
    TokenType::Variable(text.to_string())
}

#[test]
fn single_character_tokens_one_per_character() {
    let tokens = scan_all("+-*/^.()= ");
    let kinds = vec![
        TokenType::Plus,
        TokenType::Minus,
        TokenType::Multiply,
        TokenType::Divide,
        TokenType::Power,
        TokenType::Dot,
        TokenType::OpeningParenthesis,
        TokenType::ClosingParenthesis,
        TokenType::Equals,
        TokenType::Space,
    ];
    let mut expected: Vec<Token> = Vec::new();
    for (i, kind) in kinds.into_iter().enumerate() {
        expected.push(tok(kind, i, i + 1));
    }
    expected.push(tok(TokenType::EndOfExpression, 10, 10));
    assert_eq!(tokens, expected);
}

#[test]
fn single_character_tokens_repeated() {
    let tokens = scan_all("((  ))");
    assert_eq!(
        tokens,
        vec![
            tok(TokenType::OpeningParenthesis, 0, 1),
            tok(TokenType::OpeningParenthesis, 1, 2),
            tok(TokenType::Space, 2, 3),
            tok(TokenType::Space, 3, 4),
            tok(TokenType::ClosingParenthesis, 4, 5),
            tok(TokenType::ClosingParenthesis, 5, 6),
            tok(TokenType::EndOfExpression, 6, 6),
        ]
    );
}

#[test]
fn two_character_operators() {
    assert_eq!(scan(&mut Lexer::new("<=")), tok(TokenType::LessEqual, 0, 2));
    assert_eq!(scan(&mut Lexer::new(">=")), tok(TokenType::GreaterEqual, 0, 2));
    assert_eq!(scan(&mut Lexer::new("!=")), tok(TokenType::NotEqual, 0, 2));
    assert_eq!(scan_all("<="), vec![
        tok(TokenType::LessEqual, 0, 2),
        tok(TokenType::EndOfExpression, 2, 2),
    ]);
}

#[test]
fn lone_comparison_operators() {
    assert_eq!(scan_all("<"), vec![tok(TokenType::Less, 0, 1), tok(TokenType::EndOfExpression, 1, 1)]);
    assert_eq!(scan_all(">"), vec![tok(TokenType::Greater, 0, 1), tok(TokenType::EndOfExpression, 1, 1)]);
    assert_eq!(scan_all("<+"), vec![
        tok(TokenType::Less, 0, 1),
        tok(TokenType::Plus, 1, 2),
        tok(TokenType::EndOfExpression, 2, 2),
    ]);
    assert_eq!(scan_all("> ="), vec![
        tok(TokenType::Greater, 0, 1),
        tok(TokenType::Space, 1, 2),
        tok(TokenType::Equals, 2, 3),
        tok(TokenType::EndOfExpression, 3, 3),
    ]);
}

#[test]
fn bang_at_end_fails() {
    let mut lexer = Lexer::new("!");
    assert_eq!(lexer.scan_token(), Err(LexerError::InvalidBang { position: 0, found: None }));
}

#[test]
fn bang_followed_by_other_character_fails() {
    let mut lexer = Lexer::new("!x");
    assert_eq!(lexer.scan_token(), Err(LexerError::InvalidBang { position: 0, found: Some('x') }));
    // Only the bang was consumed: scanning may resume at the next character.
    assert_eq!(scan(&mut lexer), tok(variable("x"), 1, 2));
    assert_eq!(scan(&mut lexer), tok(TokenType::EndOfExpression, 2, 2));
}

#[test]
fn numeral_keeps_its_text_and_span() {
    assert_eq!(scan_all("3.14"), vec![tok(constant("3.14"), 0, 4), tok(TokenType::EndOfExpression, 4, 4)]);
    assert_eq!(scan_all("42"), vec![tok(constant("42"), 0, 2), tok(TokenType::EndOfExpression, 2, 2)]);
    assert_eq!(scan_all("7."), vec![tok(constant("7."), 0, 2), tok(TokenType::EndOfExpression, 2, 2)]);
    assert_eq!(scan_all("x+0.5)"), vec![
        tok(variable("x"), 0, 1),
        tok(TokenType::Plus, 1, 2),
        tok(constant("0.5"), 2, 5),
        tok(TokenType::ClosingParenthesis, 5, 6),
        tok(TokenType::EndOfExpression, 6, 6),
    ]);
}

#[test]
fn numeral_text_reads_as_the_right_number() {
    for (text, value) in [("3.14", 3.14f64), ("42", 42.0), ("0.5", 0.5), ("7.", 7.0), ("1000000", 1e6)] {
        let token = scan(&mut Lexer::new(text));
        match token.token_type {
            TokenType::Constant(literal) => assert_eq!(literal.parse::<f64>().unwrap(), value),
            other => panic!("expected a constant, got {:?}", other),
        }
        assert_eq!(token.span, 0..text.len());
    }
}

#[test]
fn malformed_numeral_names_its_start() {
    let mut lexer = Lexer::new("1.2.3");
    assert_eq!(
        lexer.scan_token(),
        Err(LexerError::MalformedNumber { position: 0, literal: "1.2.3".to_string() })
    );
}

#[test]
fn malformed_numeral_consumes_the_run() {
    let mut lexer = Lexer::new("x*1__2+");
    assert_eq!(scan(&mut lexer), tok(variable("x"), 0, 1));
    assert_eq!(scan(&mut lexer), tok(TokenType::Multiply, 1, 2));
    assert_eq!(
        lexer.scan_token(),
        Err(LexerError::MalformedNumber { position: 2, literal: "1__2".to_string() })
    );
    assert_eq!(scan(&mut lexer), tok(TokenType::Plus, 6, 7));
}

#[test]
fn letters_and_digits_are_separate_runs() {
    assert_eq!(scan_all("abc123"), vec![
        tok(variable("abc"), 0, 3),
        tok(constant("123"), 3, 6),
        tok(TokenType::EndOfExpression, 6, 6),
    ]);
}

#[test]
fn identifiers_take_upper_and_lower_case() {
    assert_eq!(scan_all("Sin x"), vec![
        tok(variable("Sin"), 0, 3),
        tok(TokenType::Space, 3, 4),
        tok(variable("x"), 4, 5),
        tok(TokenType::EndOfExpression, 5, 5),
    ]);
}

#[test]
fn empty_source_ends_at_once() {
    let mut lexer = Lexer::new("");
    assert_eq!(scan(&mut lexer), tok(TokenType::EndOfExpression, 0, 0));
}

#[test]
fn end_of_expression_is_emitted_again() {
    let mut lexer = Lexer::new("+");
    assert_eq!(scan(&mut lexer), tok(TokenType::Plus, 0, 1));
    assert_eq!(scan(&mut lexer), tok(TokenType::EndOfExpression, 1, 1));
    assert_eq!(scan(&mut lexer), tok(TokenType::EndOfExpression, 1, 1));
}

#[test]
fn spans_tile_the_source() {
    let source = "(a>=b)!=c^2.5";
    let tokens = scan_all(source);
    let ends = tokens.iter().filter(|t| t.token_type == TokenType::EndOfExpression).count();
    assert_eq!(ends, 1);
    assert_eq!(tokens.last().unwrap().token_type, TokenType::EndOfExpression);
    let mut position = 0;
    for token in &tokens {
        assert_eq!(token.span.start, position);
        assert!(token.span.end <= source.len());
        position = token.span.end;
    }
    assert_eq!(position, source.len());
}

#[test]
fn full_expression() {
    assert_eq!(scan_all("5 <= 35*test^2 <= 35"), vec![
        tok(constant("5"), 0, 1),
        tok(TokenType::Space, 1, 2),
        tok(TokenType::LessEqual, 2, 4),
        tok(TokenType::Space, 4, 5),
        tok(constant("35"), 5, 7),
        tok(TokenType::Multiply, 7, 8),
        tok(variable("test"), 8, 12),
        tok(TokenType::Power, 12, 13),
        tok(constant("2"), 13, 14),
        tok(TokenType::Space, 14, 15),
        tok(TokenType::LessEqual, 15, 17),
        tok(TokenType::Space, 17, 18),
        tok(constant("35"), 18, 20),
        tok(TokenType::EndOfExpression, 20, 20),
    ]);
}

#[test]
fn unexpected_characters_fail() {
    assert_eq!(
        Lexer::new("1 # 2").scan_token(),
        Ok(Some(tok(constant("1"), 0, 1)))
    );
    let mut lexer = Lexer::new("1 # 2");
    scan(&mut lexer);
    scan(&mut lexer);
    assert_eq!(lexer.scan_token(), Err(LexerError::UnexpectedCharacter { position: 2, character: '#' }));
    assert_eq!(scan(&mut lexer), tok(TokenType::Space, 3, 4));
}

#[test]
fn positions_count_characters_not_bytes() {
    let mut lexer = Lexer::new("é1_");
    assert_eq!(lexer.scan_token(), Err(LexerError::UnexpectedCharacter { position: 0, character: 'é' }));
    assert_eq!(
        lexer.scan_token(),
        Err(LexerError::MalformedNumber { position: 1, literal: "1_".to_string() })
    );
    assert_eq!(scan(&mut lexer), tok(TokenType::EndOfExpression, 3, 3));
}

#[test]
fn next_and_peek_walk_the_source() {
    let mut lexer = Lexer::new("ab");
    assert_eq!(lexer.peek(), Some('a'));
    assert_eq!(lexer.next(), Some('a'));
    assert_eq!(lexer.peek(), Some('b'));
    assert_eq!(lexer.next(), Some('b'));
    assert_eq!(lexer.peek(), None);
    assert_eq!(lexer.next(), None);
    assert_eq!(lexer.next(), None);
    assert_eq!(scan(&mut lexer), tok(TokenType::EndOfExpression, 2, 2));
}

#[test]
fn recording_a_token_leaves_the_cursor() {
    let mut lexer = Lexer::new("+-");
    assert_eq!(lexer.next(), Some('+'));
    lexer.add_singlechar_token(TokenType::Plus);
    assert_eq!(scan(&mut lexer), tok(TokenType::Minus, 1, 2));
}

#[test]
fn some_token_wraps_a_token() {
    assert_eq!(Token::some_token(TokenType::Dot, 3..4), Ok(Some(tok(TokenType::Dot, 3, 4))));
}
