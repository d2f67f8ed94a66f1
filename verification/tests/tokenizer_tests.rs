use sqlite_reader::token::Token;
use sqlite_reader::tokenizer::Tokenizer;

#[test]
fn it_should_tokenize_simple_query() {
    let mut tokenizer = Tokenizer::new("SELECT COUNT(*) FROM apples;");
    let expected_tokens = [
        Token::Select,
        Token::Ident("count".to_string()),
        Token::LParen,
        Token::Star,
        Token::RParen,
        Token::From,
        Token::Ident("apples".to_string()),
    ];

    for expected in expected_tokens.into_iter() {
        let token = tokenizer.next().unwrap().unwrap();
        println!("|{}|", token.render());
        assert_eq!(token, expected);
    }
}

#[test]
fn it_should_tokenize_multiple_value_select() {
    let mut tokenizer = Tokenizer::new("SELECT name, color, number FROM apples;");
    let expected_tokens = [
        Token::Select,
        Token::Ident("name".to_string()),
        Token::Coma,
        Token::Ident("color".to_string()),
        Token::Coma,
        Token::Ident("number".to_string()),
        Token::From,
        Token::Ident("apples".to_string()),
    ];

    for expected in expected_tokens.into_iter() {
        let token = tokenizer.next().unwrap().unwrap();
        println!("|{}|", token.render());
        assert_eq!(token, expected);
    }
}

#[test]
fn it_should_tokenize_with_where() {
    let mut tokenizer = Tokenizer::new("SELECT name, color, number FROM apples WHERE name = 'hey';");
    let expected_tokens = [
        Token::Select,
        Token::Ident("name".to_string()),
        Token::Coma,
        Token::Ident("color".to_string()),
        Token::Coma,
        Token::Ident("number".to_string()),
        Token::From,
        Token::Ident("apples".to_string()),
        Token::Where,
        Token::Ident("name".to_string()),
        Token::Equal,
        Token::QIdent("hey".to_string()),
    ];

    for expected in expected_tokens.into_iter() {
        let token = tokenizer.next().unwrap().unwrap();
        assert_eq!(token, expected);
    }
}

#[test]
fn it_should_tokenize_with_where_correct_len() {
    let mut tokenizer = Tokenizer::new("SELECT name, color, number FROM apples WHERE name = 'hey';");
    let mut count = 0;
    while let Ok(Some(_)) = tokenizer.next() {
        count += 1;
    }
    assert_eq!(count, 13);
}

#[test]
fn it_should_tokenize_all_token() {
    let mut tokenizer = Tokenizer::new(
        "SELECT COUNT(*), name, color, number FROM apples WHERE name = 'hey' +- / <= >= != NULL Not like Ilike 25;",
    );

    let expected_tokens = [
        Token::Select,
        Token::Ident("count".to_string()),
        Token::LParen,
        Token::Star,
        Token::RParen,
        Token::Coma,
        Token::Ident("name".to_string()),
        Token::Coma,
        Token::Ident("color".to_string()),
        Token::Coma,
        Token::Ident("number".to_string()),
        Token::From,
        Token::Ident("apples".to_string()),
        Token::Where,
        Token::Ident("name".to_string()),
        Token::Equal,
        Token::QIdent("hey".to_string()),
        Token::Plus,
        Token::Minus,
        Token::Div,
        Token::LTEQ,
        Token::GTEQ,
        Token::NotEq,
        Token::Null,
        Token::Not,
        Token::Like,
        Token::ILike,
        Token::Num(25),
    ];

    for expected in expected_tokens.into_iter() {
        let token = tokenizer.next().unwrap().unwrap();
        assert_eq!(token, expected);
    }
}

#[test]
fn it_should_tokenize_all_token_no_space() {
    let mut tokenizer = Tokenizer::new("name='hey'+-/<=>=!=NULL Not like Ilike 25;");

    let expected_tokens = [
        Token::Ident("name".to_string()),
        Token::Equal,
        Token::QIdent("hey".to_string()),
        Token::Plus,
        Token::Minus,
        Token::Div,
        Token::LTEQ,
        Token::GTEQ,
        Token::NotEq,
        Token::Null,
        Token::Not,
        Token::Like,
        Token::ILike,
        Token::Num(25),
    ];

    for expected in expected_tokens.into_iter() {
        let token = tokenizer.next().unwrap().unwrap();
        assert_eq!(token, expected);
    }
}

#[test]
fn unterminated_quote_is_a_lex_error() {
    let mut tokenizer = Tokenizer::new("SELECT 'oops");
    assert_eq!(tokenizer.next(), Ok(Some(Token::Select)));
    assert_eq!(tokenizer.next(), Err(sqlite_reader::errors::DbError::LexError));
}

#[test]
fn peek_does_not_consume() {
    let mut tokenizer = Tokenizer::new("SELECT name");
    assert_eq!(tokenizer.peek().unwrap(), Some(&Token::Select));
    assert_eq!(tokenizer.peek().unwrap(), Some(&Token::Select));
    assert_eq!(tokenizer.next().unwrap(), Some(Token::Select));
    assert_eq!(tokenizer.next().unwrap(), Some(Token::Ident("name".to_string())));
    assert_eq!(tokenizer.next().unwrap(), None);
}
