use dianadb::error::DbError;
use dianadb::keyword::Keyword;
use dianadb::statement::{Statement, StatementT};
use dianadb::tokens::TokenT;

fn parse(text: &str) -> Result<Statement, DbError> {
    Statement::parse(&text.to_string(), &"S0".to_string())
}

#[test]
fn select_with_columns_parses() {
    let st = parse("select a, b").unwrap();
    assert_eq!(st.statement_t, StatementT::Select);
    assert_eq!(st.columns, vec!["a".to_string(), "b".to_string()]);
    assert_eq!(st.table_name, "");
    assert_eq!(st.predicate.comparisons.len(), 0);
    assert_eq!(st.me, "S0");
}

#[test]
fn select_may_end_with_a_comma() {
    let st = parse("select a,").unwrap();
    assert_eq!(st.columns, vec!["a".to_string()]);
    let st = parse("select").unwrap();
    assert_eq!(st.statement_t, StatementT::Select);
    assert_eq!(st.columns.len(), 0);
}

#[test]
fn test_parse() {
    let query = "select name from table_1".to_string();
    let parse_res = Statement::parse(&query, &"S0".to_string());
    assert!(parse_res.is_ok() == true);
    let st = parse_res.unwrap();
    assert_eq!(st.statement_t, StatementT::Select);
    assert_eq!(st.columns, vec!["name".to_string()]);
    assert_eq!(st.table_name, "table_1");
    assert_eq!(st.predicate.comparisons.len(), 0);
}

#[test]
fn select_with_where_parses() {
    let st = parse("select column1, column2 from table_name where column1 > 500").unwrap();
    assert_eq!(st.columns, vec!["column1".to_string(), "column2".to_string()]);
    assert_eq!(st.table_name, "table_name");
    assert_eq!(st.predicate.comparisons.len(), 1);
    let c = &st.predicate.comparisons[0];
    assert_eq!(c.column_name, "column1");
    assert_eq!(c.operator, TokenT::Greater);
    assert_eq!(c.number, "500");
}

#[test]
fn select_refuses_missing_comma() {
    let err = parse("select name table_1").unwrap_err();
    match &err {
        DbError::UnexpectedTokenType { me, expected, found } => {
            assert_eq!(me, "S0");
            assert_eq!(expected, &vec![TokenT::Comma]);
            assert_eq!(*found, TokenT::Ident);
        }
        _ => panic!("unexpected error {:?}", err),
    }
    assert_eq!(
        err.message(),
        "S0: dianadb::Tokens::expect_token_t: expected one of [\n  \"Comma\"\n], found: \"Ident\""
    );
}

#[test]
fn select_table_must_be_followed_by_a_keyword() {
    let err = parse("select a from t x").unwrap_err();
    match &err {
        DbError::ExpectedKeyword { found, .. } => assert_eq!(found, "x"),
        _ => panic!("unexpected error {:?}", err),
    }
    let err = parse("select a from t from").unwrap_err();
    match &err {
        DbError::UnexpectedValue { expected, found, .. } => {
            assert_eq!(expected, "where");
            assert_eq!(found, "from");
        }
        _ => panic!("unexpected error {:?}", err),
    }
    let err = parse("select a where b").unwrap_err();
    assert!(matches!(err, DbError::UnexpectedValue { .. }));
    let err = parse("select a from t where b = c").unwrap_err();
    match &err {
        DbError::UnexpectedTokenType { expected, found, .. } => {
            assert_eq!(expected, &vec![TokenT::Num]);
            assert_eq!(*found, TokenT::Ident);
        }
        _ => panic!("unexpected error {:?}", err),
    }
    let err = parse("select a from t where b , 1").unwrap_err();
    assert!(matches!(err, DbError::UnexpectedTokenType { .. }));
    let st = parse("select a from t where b").unwrap();
    assert_eq!(st.predicate.comparisons.len(), 0);
}

#[test]
fn parse_is_case_insensitive() {
    let st = parse("SELECT A, B").unwrap();
    assert_eq!(st.columns, vec!["a".to_string(), "b".to_string()]);
    assert_eq!(st.tokens.stream, b"select a, b".to_vec());
}

#[test]
fn update_alone_parses() {
    let st = parse("update").unwrap();
    assert_eq!(st.statement_t, StatementT::Update);
    let err = parse("update t").unwrap_err();
    assert!(matches!(err, DbError::TrailingTokens { .. }));
    assert_eq!(
        err.message(),
        "S0: dianadb::Statement::expect_end: expected token index to be equal to length of tokens"
    );
}

#[test]
fn insert_never_parses() {
    let err = parse("insert into t").unwrap_err();
    assert!(matches!(err, DbError::TrailingTokens { .. }));
    let err = parse("insert").unwrap_err();
    assert!(matches!(err, DbError::IndexOutOfBounds));
    assert_eq!(err.message(), "index out of bounds");
    let err = parse("insert t").unwrap_err();
    match &err {
        DbError::UnknownStatement { found, .. } => assert_eq!(found, "insert"),
        _ => panic!("unexpected error {:?}", err),
    }
}

#[test]
fn unknown_statement_is_refused() {
    let err = parse("delete x").unwrap_err();
    match &err {
        DbError::UnknownStatement { me, found } => {
            assert_eq!(me, "S0");
            assert_eq!(found, "delete");
        }
        _ => panic!("unexpected error {:?}", err),
    }
    assert_eq!(err.message(), "S0: dianadb::Statement::parse_type: did not expect delete as statement type string");
}

#[test]
fn statement_must_start_with_an_identifier() {
    let err = parse("12 a").unwrap_err();
    match &err {
        DbError::UnexpectedTokenType { expected, found, .. } => {
            assert_eq!(expected, &vec![TokenT::Ident]);
            assert_eq!(*found, TokenT::Num);
        }
        _ => panic!("unexpected error {:?}", err),
    }
}

#[test]
fn empty_statement_parses_as_error_kind() {
    let st = parse("  ").unwrap();
    assert_eq!(st.statement_t, StatementT::Error);
    assert_eq!(st.columns.len(), 0);
}

#[test]
fn keywords_are_lower_case_words() {
    let st = parse("update").unwrap();
    assert_eq!(st.keywords.len(), 69);
    assert_eq!(st.keywords[0], "all");
    assert_eq!(st.keywords[68], "with");
    let all = Keyword::iter();
    for (k, s) in all.iter().zip(st.keywords.iter()) {
        assert_eq!(k.word(), s);
    }
    assert!(st.keywords.contains(&"from".to_string()));
    assert!(st.keywords.contains(&"set".to_string()));
}

#[test]
fn token_kind_in_message_matches_serde() {
    let e = DbError::UnexpectedTokenType { me: "S1".to_string(), expected: vec![TokenT::Num], found: TokenT::Eq };
    let want = format!(
        "S1: dianadb::Tokens::expect_token_t: expected one of {}, found: {}",
        serde_json::to_string_pretty(&vec!["Num"]).unwrap(),
        serde_json::to_string("Eq").unwrap()
    );
    assert_eq!(e.message(), want);
}

#[test]
fn comparison_operator_error_lists_all_operators() {
    let e = DbError::UnexpectedTokenType {
        me: "S1".to_string(),
        expected: vec![TokenT::Greater, TokenT::GreaterEq, TokenT::Less, TokenT::LessEq, TokenT::Eq],
        found: TokenT::Comma,
    };
    let expected_json = serde_json::to_string_pretty(&vec!["Greater", "GreaterEq", "Less", "LessEq", "Eq"]).unwrap();
    assert_eq!(
        e.message(),
        format!("S1: dianadb::Tokens::expect_token_t: expected one of {}, found: \"Comma\"", expected_json)
    );
    let empty = DbError::UnexpectedTokenType { me: "S1".to_string(), expected: vec![], found: TokenT::Dot };
    assert_eq!(empty.message(), "S1: dianadb::Tokens::expect_token_t: expected one of [], found: \"Dot\"");
}

#[test]
fn expect_checks_report_the_replica() {
    let tokens = dianadb::tokens::Tokens::tokenize(&"from".to_string(), &"S3".to_string()).unwrap();
    let tok = &tokens.token_list[0];
    assert!(tokens.expect_val(tok, &"from".to_string()).is_ok());
    let err = tokens.expect_val(tok, &"where".to_string()).unwrap_err();
    assert_eq!(err.message(), "S3: dianadb::Tokens::expect_val: expected where as token value, found: from");
    let err = tokens.expect_keyword(tok, &vec!["\"From\"".to_string()]).unwrap_err();
    assert_eq!(err.message(), "S3: dianadb::Tokens::expect_keyword: expected keyword, found: from");
    assert!(tokens.expect_keyword(tok, &vec!["from".to_string()]).is_ok());
    assert!(tokens.expect_token_t(&TokenT::Num, vec![TokenT::Ident, TokenT::Num]).is_ok());
}
