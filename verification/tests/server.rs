use dianadb::error::DbError;
use dianadb::{Database, Server};

#[test]
fn replica_answers_statements() {
    let mut server = Server::new();
    server.init(&"0 5 a b c".to_string()).unwrap();
    assert_eq!(server.database.me, "S5");
    assert_eq!(server.apply(&"select x".to_string()).unwrap(), "");
    assert_eq!(server.respond(&"select x, y".to_string()), "");
    assert_eq!(
        server.respond(&"drop t".to_string()),
        "S5: dianadb::Statement::parse_type: did not expect drop as statement type string"
    );
    assert!(matches!(server.apply(&"update t".to_string()), Err(DbError::TrailingTokens { .. })));
}

#[test]
fn replica_configuration_is_checked() {
    let mut server = Server::new();
    assert!(matches!(server.init(&"0 5 a".to_string()), Err(DbError::SingleReplica)));
    let mut server = Server::new();
    assert!(matches!(server.init(&"zero 5 a b c".to_string()), Err(DbError::InvalidNumber { .. })));
}

#[test]
fn database_runs_statements() {
    let mut db = Database { me: String::new() };
    db.init(&"S2".to_string()).unwrap();
    assert_eq!(db.me, "S2");
    assert_eq!(db.run_statement(&"select a".to_string()).unwrap(), "");
    let err = db.run_statement(&"select a b".to_string()).unwrap_err();
    match err {
        DbError::UnexpectedTokenType { me, .. } => assert_eq!(me, "S2"),
        _ => panic!("unexpected error"),
    }
}
