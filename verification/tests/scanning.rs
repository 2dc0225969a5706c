use rlox::scanner::{keyword_of, number_literals, CompilerError, Scanner, Token, TokenType};

fn scan_all(source: &str) -> Vec<Result<Token, String>> {
    let mut scanner = Scanner::new(source);
    let mut found = Vec::new();
    loop {
        match scanner.scan_token() {
            Ok(token) => {
                let end = token.token_type == TokenType::Eof;
                found.push(Ok(token));
                if end {
                    return found;
                }
            }
            Err(CompilerError { line, message }) => found.push(Err(format!("{}: {}", line, message))),
        }
    }
}

fn kinds(source: &str) -> Vec<TokenType> {
    scan_all(source).into_iter().map(|found| found.unwrap().token_type).collect()
}

fn lexemes(source: &str) -> Vec<String> {
    scan_all(source)
        .into_iter()
        .map(|found| found.unwrap().lexeme(source).to_string())
        .collect()
}

#[test]
fn punctuation_and_operators() {
    assert_eq!(
        kinds("(){};,.-+/*"),
        vec![
            TokenType::LeftParen,
            TokenType::RightParen,
            TokenType::LeftBrace,
            TokenType::RightBrace,
            TokenType::Semicolon,
            TokenType::Comma,
            TokenType::Dot,
            TokenType::Minus,
            TokenType::Plus,
            TokenType::Slash,
            TokenType::Star,
            TokenType::Eof,
        ]
    );
    assert_eq!(
        kinds("! != = == < <= > >="),
        vec![
            TokenType::Bang,
            TokenType::BangEqual,
            TokenType::Equal,
            TokenType::EqualEqual,
            TokenType::Less,
            TokenType::LessEqual,
            TokenType::Greater,
            TokenType::GreaterEqual,
            TokenType::Eof,
        ]
    );
    assert_eq!(lexemes("!===<"), vec!["!=", "==", "<", ""]);
    assert_eq!(kinds("="), vec![TokenType::Equal, TokenType::Eof]);
}

#[test]
fn reserved_words() {
    assert_eq!(
        kinds("and class else false for fun if nil or print return super this true var while"),
        vec![
            TokenType::And,
            TokenType::Class,
            TokenType::Else,
            TokenType::False,
            TokenType::For,
            TokenType::Fun,
            TokenType::If,
            TokenType::Nil,
            TokenType::Or,
            TokenType::Print,
            TokenType::Return,
            TokenType::Super,
            TokenType::This,
            TokenType::True,
            TokenType::Var,
            TokenType::While,
            TokenType::Eof,
        ]
    );
}

#[test]
fn words_that_only_resemble_reserved_words_are_identifiers() {
    for word in [
        "an", "ands", "a", "clas", "classy", "els", "elsewhere", "f", "fa", "fals", "falsey", "fo",
        "fort", "fu", "funny", "i", "iff", "ni", "nile", "o", "ore", "prin", "printer", "retur",
        "returns", "supe", "supers", "t", "th", "thi", "thiss", "tr", "tru", "trues", "va", "vars",
        "whil", "whiles", "_and", "And", "x", "x1", "_", "__init__", "tx", "fx", "nul", "t_is",
    ] {
        assert_eq!(kinds(word), vec![TokenType::Identifier, TokenType::Eof], "{}", word);
        assert_eq!(lexemes(word)[0], word);
    }
}

#[test]
fn letters_beyond_ascii_make_identifiers() {
    assert_eq!(kinds("été"), vec![TokenType::Identifier, TokenType::Eof]);
    assert_eq!(lexemes("é_1 + ß"), vec!["é_1", "+", "ß", ""]);
    let found = scan_all("x€");
    assert_eq!(found.len(), 3);
    assert_eq!(found[1], Err("1: Unexpected character: €".to_string()));
}

#[test]
fn numbers() {
    assert_eq!(kinds("123"), vec![TokenType::Number, TokenType::Eof]);
    assert_eq!(lexemes("123 4.5 0.001 007"), vec!["123", "4.5", "0.001", "007", ""]);
    // A dot belongs to a number only between digits.
    assert_eq!(lexemes("1."), vec!["1", ".", ""]);
    assert_eq!(kinds(".5"), vec![TokenType::Dot, TokenType::Number, TokenType::Eof]);
    assert_eq!(lexemes("1.5.2"), vec!["1.5", ".", "2", ""]);
    assert_eq!(lexemes("1..2"), vec!["1", ".", ".", "2", ""]);
    assert_eq!(lexemes("12abc"), vec!["12", "abc", ""]);
    assert_eq!(lexemes("1e5"), vec!["1", "e5", ""]);
}

#[test]
fn strings() {
    let found = scan_all("\"hello\" \"\" \"a\\\"");
    let tokens: Vec<Token> = found.into_iter().map(|t| t.unwrap()).collect();
    assert_eq!(tokens[0], Token::new(TokenType::String, 0, 7, 1));
    assert_eq!(tokens[1], Token::new(TokenType::String, 8, 2, 1));
    // A backslash escapes nothing.
    assert_eq!(tokens[2], Token::new(TokenType::String, 11, 4, 1));
    assert_eq!(tokens[3], Token::new(TokenType::Eof, 15, 0, 1));
}

#[test]
fn string_over_several_lines_is_on_its_last_line() {
    let found = scan_all("\"a\nb\n\" x");
    assert_eq!(found[0], Ok(Token::new(TokenType::String, 0, 6, 3)));
    assert_eq!(found[1], Ok(Token::new(TokenType::Identifier, 7, 1, 3)));
}

#[test]
fn unterminated_string_is_an_error() {
    let found = scan_all("1 \"abc\ndef");
    assert_eq!(found.len(), 3);
    assert_eq!(found[0], Ok(Token::new(TokenType::Number, 0, 1, 1)));
    assert_eq!(found[1], Err("2: Unterminated string".to_string()));
    assert_eq!(found[2], Ok(Token::new(TokenType::Eof, 10, 0, 2)));
}

#[test]
fn unexpected_character_is_an_error() {
    let found = scan_all("1 @ 2\n#");
    assert_eq!(found.len(), 5);
    assert_eq!(found[1], Err("1: Unexpected character: @".to_string()));
    assert_eq!(found[2], Ok(Token::new(TokenType::Number, 4, 1, 1)));
    assert_eq!(found[3], Err("2: Unexpected character: #".to_string()));
    let found = scan_all("a\0b");
    assert_eq!(found[1], Err("1: Unexpected character: \0".to_string()));
    assert_eq!(found[2], Ok(Token::new(TokenType::Identifier, 2, 1, 1)));
}

#[test]
fn blanks_and_comments_are_skipped() {
    assert_eq!(lexemes("  1\t+\r\n 2 // the rest\n3"), vec!["1", "+", "2", "3", ""]);
    assert_eq!(kinds("// only a comment"), vec![TokenType::Eof]);
    assert_eq!(kinds("/ /"), vec![TokenType::Slash, TokenType::Slash, TokenType::Eof]);
    assert_eq!(kinds("1 /"), vec![TokenType::Number, TokenType::Slash, TokenType::Eof]);
    assert_eq!(kinds(""), vec![TokenType::Eof]);
}

#[test]
fn lines_count_every_line_feed() {
    let found = scan_all("a\n\nb // c\n// d\n\n  e");
    assert_eq!(found[0], Ok(Token::new(TokenType::Identifier, 0, 1, 1)));
    assert_eq!(found[1], Ok(Token::new(TokenType::Identifier, 3, 1, 3)));
    assert_eq!(found[2], Ok(Token::new(TokenType::Identifier, 18, 1, 6)));
    assert_eq!(found[3], Ok(Token::new(TokenType::Eof, 19, 0, 6)));
}

#[test]
fn end_of_input_repeats() {
    let mut scanner = Scanner::new("x ");
    assert_eq!(scanner.scan_token().unwrap().token_type, TokenType::Identifier);
    for _ in 0..3 {
        assert_eq!(scanner.scan_token().unwrap(), Token::new(TokenType::Eof, 2, 0, 1));
    }
}

#[test]
fn positions_count_characters() {
    let source = "é + ü2";
    let found = scan_all(source);
    assert_eq!(found[0], Ok(Token::new(TokenType::Identifier, 0, 1, 1)));
    assert_eq!(found[1], Ok(Token::new(TokenType::Plus, 2, 1, 1)));
    assert_eq!(found[2], Ok(Token::new(TokenType::Identifier, 4, 2, 1)));
    assert_eq!(Token::new(TokenType::Identifier, 4, 2, 1).lexeme(source), "ü2");
}

#[test]
fn token_new_keeps_its_arguments() {
    let token = Token::new(TokenType::Number, 3, 4, 5);
    assert_eq!(token.token_type, TokenType::Number);
    assert_eq!(token.start, 3);
    assert_eq!(token.length, 4);
    assert_eq!(token.line, 5);
    assert_eq!(token.lexeme("abc1234xyz"), "1234");
    assert_eq!(Token::new(TokenType::Eof, 3, 0, 1).lexeme("abc"), "");
}

#[test]
fn number_literals_are_listed_in_order() {
    assert_eq!(number_literals("1 + 2.5 * (3 - x) // 4\n \"5\" 6"), vec!["1", "2.5", "3", "6"]);
    assert!(number_literals("a + b").is_empty());
    assert_eq!(number_literals("1 @ 2 \"open"), vec!["1", "2"]);
}

#[test]
fn keyword_of_tells_reserved_words_from_identifiers() {
    let reserved = [
        ("and", TokenType::And),
        ("class", TokenType::Class),
        ("else", TokenType::Else),
        ("false", TokenType::False),
        ("for", TokenType::For),
        ("fun", TokenType::Fun),
        ("if", TokenType::If),
        ("nil", TokenType::Nil),
        ("or", TokenType::Or),
        ("print", TokenType::Print),
        ("return", TokenType::Return),
        ("super", TokenType::Super),
        ("this", TokenType::This),
        ("true", TokenType::True),
        ("var", TokenType::Var),
        ("while", TokenType::While),
    ];
    for (word, token_type) in reserved {
        assert_eq!(keyword_of(word), token_type, "{}", word);
        assert_eq!(keyword_of(&format!("{}x", word)), TokenType::Identifier);
        assert_eq!(keyword_of(&word[..word.len() - 1]), TokenType::Identifier);
        assert_eq!(keyword_of(&word.to_uppercase()), TokenType::Identifier);
    }
    for word in ["", "a", "f", "t", "x", "fa", "th", "tr", "fo", "fu", "_", "été", "and or", "1"] {
        assert_eq!(keyword_of(word), TokenType::Identifier, "{:?}", word);
    }
}
