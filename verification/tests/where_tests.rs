use sqlite_reader::db_response::RType;
use sqlite_reader::token::Token;
use sqlite_reader::where_clause::{compare_values, Operator, Where};

#[test]
fn it_should_evaluate_none_1() {
    let where_clause = Where::new(
        Token::Num(5),
        Token::Equal,
        Token::QIdent("Hello".to_string()),
    )
    .unwrap();
    let result = where_clause.evaluate(None);
    assert_eq!(result, false)
}

#[test]
fn it_should_evaluate_none_2() {
    let where_clause = Where::new(Token::Num(5), Token::Equal, Token::Num(1)).unwrap();
    let result = where_clause.evaluate(None);
    assert_eq!(result, false)
}

#[test]
fn evaluate_compares_the_literal_against_the_value() {
    let where_clause = Where::new(
        Token::Ident("color".to_string()),
        Token::Equal,
        Token::QIdent("Yellow".to_string()),
    )
    .unwrap();
    assert!(where_clause.evaluate(Some(&RType::Str("Yellow".to_string()))));
    assert!(!where_clause.evaluate(Some(&RType::Str("Red".to_string()))));
    assert!(!where_clause.evaluate(Some(&RType::Num(3))));
}

#[test]
fn comparisons_follow_the_type_rules() {
    let one = RType::Num(1);
    let two = RType::Num(2);
    let a = RType::Str("apple".to_string());
    let b = RType::Str("banana".to_string());
    let null = RType::Null;

    assert!(compare_values(&Operator::LT, &one, &two));
    assert!(!compare_values(&Operator::GT, &one, &two));
    assert!(compare_values(&Operator::LTE, &one, &one));
    assert!(compare_values(&Operator::GTE, &two, &one));
    assert!(compare_values(&Operator::LT, &a, &b));
    assert!(compare_values(&Operator::LTE, &a, &a));
    assert!(!compare_values(&Operator::GT, &a, &b));

    // Cross-type: equality is false, inequality true, order false.
    assert!(!compare_values(&Operator::Eq, &one, &a));
    assert!(compare_values(&Operator::NotEq, &one, &a));
    assert!(!compare_values(&Operator::LT, &one, &a));

    // NULL compares false under every operator.
    assert!(!compare_values(&Operator::Eq, &null, &null));
    assert!(!compare_values(&Operator::NotEq, &one, &null));
    assert!(!compare_values(&Operator::LT, &null, &one));
}

#[test]
fn evaluate_applies_the_stored_operator() {
    let lt = Where::new(Token::Ident("id".to_string()), Token::LT, Token::Num(5)).unwrap();
    assert!(lt.evaluate(Some(&RType::Num(3))));
    assert!(!lt.evaluate(Some(&RType::Num(7))));
    let ne = Where::new(Token::Ident("id".to_string()), Token::NotEq, Token::Num(5)).unwrap();
    assert!(ne.evaluate(Some(&RType::Num(3))));
    assert!(!ne.evaluate(Some(&RType::Null)));
    let lits = Where::new(Token::Num(1), Token::LTEQ, Token::Num(5)).unwrap();
    assert!(lits.evaluate(None));
}

#[test]
fn operands_outside_the_grammar_are_rejected() {
    assert!(Where::new(Token::Star, Token::Equal, Token::Num(1)).is_err());
    assert!(Where::new(Token::Num(1), Token::Plus, Token::Num(1)).is_err());
}
