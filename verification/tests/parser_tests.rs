use sqlite_reader::errors::DbError;
use sqlite_reader::parser::{parse_command, Parser};
use sqlite_reader::statement::Statement;
use sqlite_reader::db_response::RType;
use sqlite_reader::select::{SelectClause, SelectItem};
use sqlite_reader::token::{Command, Token};

#[test]
fn it_should_parse_select_regular_cols_name() {
    let query = "SELECT name, color, age";
    let mut parser = Parser::new("SELECT name, color, age");

    let parsed_query = parser.next().unwrap().unwrap();
    let result = parsed_query.render();
    assert_eq!(query, result)
}

#[test]
fn it_should_parse_select_with_count() {
    let query = "SELECT COUNT(*)";
    let mut parser = Parser::new("SELECT COUNT(*)");

    let parsed_query = parser.next().unwrap().unwrap();
    let result = parsed_query.render();
    assert_eq!(query, result)
}

#[test]
fn it_should_parse_from() {
    let query = "SELECT COUNT(*) FROM apples";
    let mut parser = Parser::new("SELECT COUNT(*) FROM apples");

    let parsed_query = parser.next().unwrap().unwrap();
    let result = parsed_query.render();
    assert_eq!(query, result)
}

#[test]
fn it_should_parse_where() {
    let query = "SELECT COUNT(*) FROM apples WHERE name = 'green'";
    let mut parser = Parser::new("SELECT COUNT(*) FROM apples WHERE name='green'");

    let parsed_query = parser.next().unwrap().unwrap();
    let result = parsed_query.render();
    assert_eq!(query, result)
}

#[test]
fn parse_command_accepts_trailing_semicolon() {
    let st = parse_command("SELECT name FROM apples;").unwrap().unwrap();
    assert_eq!(st.render(), "SELECT name FROM apples");
}

#[test]
fn parse_command_rejects_trailing_garbage() {
    assert!(matches!(
        parse_command("SELECT name FROM apples; nonsense"),
        Err(DbError::ParseError)
    ));
}

#[test]
fn parse_command_recognises_meta_commands() {
    let st = parse_command(".dbinfo").unwrap().unwrap();
    match st {
        Statement::Command(Command::DBinfo) => {},
        _ => panic!("expected the dbinfo meta-command"),
    }
    let st = parse_command(".tables").unwrap().unwrap();
    match st {
        Statement::Command(Command::Tables) => {},
        _ => panic!("expected the tables meta-command"),
    }
}

#[test]
fn parse_command_of_empty_input_is_none() {
    assert_eq!(parse_command("   ").unwrap().map(|s| s.render()), None);
}

#[test]
fn non_select_statement_is_a_parse_error() {
    assert!(matches!(parse_command("UPDATE apples"), Err(DbError::ParseError)));
}

#[test]
fn select_without_items_is_an_error() {
    assert!(matches!(parse_command("SELECT FROM apples"), Err(DbError::ParseError)));
}

#[test]
fn where_clause_needs_three_tokens() {
    assert!(matches!(
        parse_command("SELECT name FROM apples WHERE name ="),
        Err(DbError::ParseError)
    ));
}

#[test]
fn number_tokens_become_literals() {
    let mut parser = Parser::new("SELECT name FROM apples WHERE id = 42");
    let parsed_query = parser.next().unwrap().unwrap();
    match parsed_query {
        Statement::Select(ss) => {
            let w = ss.where_clause.expect("where clause expected");
            assert_eq!(w.left, Token::Ident("id".to_string()));
            assert_eq!(w.operator, Token::Equal);
            assert_eq!(w.right, Token::Num(42));
        },
        _ => panic!("expected a select statement"),
    }
}

#[test]
fn oversized_number_is_a_lex_error() {
    assert!(matches!(
        parse_command("SELECT name FROM apples WHERE id = 99999999999999999999"),
        Err(DbError::LexError)
    ));
}

#[test]
fn words_classify_into_tokens() {
    assert_eq!(Token::from_str("Select").unwrap(), Token::Select);
    assert_eq!(Token::from_str("WHERE").unwrap(), Token::Where);
    assert_eq!(Token::from_str("Apples").unwrap(), Token::Ident("apples".to_string()));
    assert_eq!(Token::from_str("199").unwrap(), Token::Num(199));
    assert_eq!(Token::from_str("'Kept Case'").unwrap(), Token::QIdent("Kept Case".to_string()));
    assert_eq!(Token::from_str(".dbinfo").unwrap(), Token::Command(Command::DBinfo));
    assert!(Token::from_str(".nope").is_err());
    assert!(Token::from_str("12ab").is_err());
}

#[test]
fn literal_tokens_turn_into_values() {
    assert_eq!(Token::Num(7).into_rtype(), RType::Num(7));
    assert_eq!(
        Token::QIdent("Yellow".to_string()).into_rtype(),
        RType::Str("Yellow".to_string())
    );
}

#[test]
fn mixed_projections_are_rejected() {
    let mut clause = SelectClause::new(Token::Select);
    clause.push_item(SelectItem::Star);
    assert!(clause.check_select_clause().is_ok());
    clause.push_item(SelectItem::Star);
    assert!(clause.check_select_clause().is_err());
}

#[test]
fn non_identifier_words_are_illegal_tokens() {
    assert_eq!(Token::from_str("a%b").unwrap(), Token::Illegal("a%b".to_string()));
    let mut tokenizer = sqlite_reader::tokenizer::Tokenizer::new("SELECT a%b");
    assert_eq!(tokenizer.next().unwrap(), Some(Token::Select));
    assert_eq!(tokenizer.next().unwrap(), Some(Token::Illegal("a%b".to_string())));
    assert!(matches!(parse_command("SELECT a%b FROM t"), Err(DbError::ParseError)));
}
