use dianadb::tokens::{Token, TokenT, Tokens};

fn ident(v: &str) -> Token {
    Token { token_t: TokenT::Ident, val: v.to_string() }
}

fn punct(t: TokenT) -> Token {
    Token { token_t: t, val: String::new() }
}

fn num(v: &str) -> Token {
    Token { token_t: TokenT::Num, val: v.to_string() }
}

fn expected(list: Vec<Token>) -> Tokens {
    Tokens { token_list: list, me: "S0".to_string(), stream: Vec::new() }
}

fn same(text: &str, list: Vec<Token>) -> bool {
    let tokens = Tokens::tokenize(&text.to_string(), &"S0".to_string()).unwrap();
    tokens.eq(&expected(list)).unwrap()
}

#[test]
fn test() {
    let mut tokens_res;
    let mut expected_tokens;
    let mut eq_res;

    tokens_res = Tokens::tokenize(&"select name from table_1".to_string(), &"S0".to_string());
    assert!(tokens_res.is_ok() == true);
    expected_tokens = Tokens {
        token_list: vec![
            Token { token_t: TokenT::Ident, val: "select".to_string() },
            Token { token_t: TokenT::Ident, val: "name".to_string() },
            Token { token_t: TokenT::Ident, val: "from".to_string() },
            Token { token_t: TokenT::Ident, val: "table_1".to_string() },
        ],
        me: "S0".to_string(),
        stream: Vec::new(),
    };
    eq_res = tokens_res.as_ref().unwrap().eq(&expected_tokens);
    assert!(eq_res.is_ok() == true);
    assert!(eq_res.unwrap() == true);

    tokens_res = Tokens::tokenize(
        &"select column1, column2, column3\nfrom table_name\nwhere column1 > 500\n\n".to_string(),
        &"S0".to_string(),
    );
    assert!(tokens_res.is_ok() == true);
    expected_tokens = Tokens {
        token_list: vec![
            Token { token_t: TokenT::Ident, val: "select".to_string() },
            Token { token_t: TokenT::Ident, val: "column1".to_string() },
            Token { token_t: TokenT::Comma, val: String::new() },
            Token { token_t: TokenT::Ident, val: "column2".to_string() },
            Token { token_t: TokenT::Comma, val: String::new() },
            Token { token_t: TokenT::Ident, val: "column3".to_string() },
            Token { token_t: TokenT::Ident, val: "from".to_string() },
            Token { token_t: TokenT::Ident, val: "table_name".to_string() },
            Token { token_t: TokenT::Ident, val: "where".to_string() },
            Token { token_t: TokenT::Ident, val: "column1".to_string() },
            Token { token_t: TokenT::Greater, val: String::new() },
            Token { token_t: TokenT::Num, val: "500".to_string() },
        ],
        me: "S0".to_string(),
        stream: Vec::new(),
    };
    eq_res = tokens_res.as_ref().unwrap().eq(&expected_tokens);
    assert!(eq_res.is_ok() == true);
    assert!(eq_res.unwrap() == true);
}

#[test]
fn tokenize_keeps_bytes_and_name() {
    let tokens = Tokens::tokenize(&"a b".to_string(), &"S7".to_string()).unwrap();
    assert_eq!(tokens.stream, b"a b".to_vec());
    assert_eq!(tokens.me, "S7");
    assert_eq!(tokens.token_list.len(), 2);
}

#[test]
fn two_character_operators_are_two_tokens() {
    assert!(same("a >= 1", vec![ident("a"), punct(TokenT::Greater), punct(TokenT::Eq), num("1")]));
    assert!(same("a <= 1", vec![ident("a"), punct(TokenT::Less), punct(TokenT::Eq), num("1")]));
    assert!(same("a <> 1", vec![ident("a"), punct(TokenT::Less), punct(TokenT::Greater), num("1")]));
    assert!(same("a<1", vec![ident("a"), punct(TokenT::Less), num("1")]));
}

#[test]
fn numbers_take_one_dot() {
    assert!(same("1.5.3", vec![num("1.5"), punct(TokenT::Dot), num("3")]));
    assert!(same("12.", vec![num("12.")]));
    assert!(same(".5", vec![punct(TokenT::Dot), num("5")]));
    assert!(same("3abc", vec![num("3"), ident("abc")]));
}

#[test]
fn identifiers_and_unknown_bytes() {
    assert!(same("_x a_1b", vec![ident("x"), ident("a_1b")]));
    assert!(same("a;b", vec![ident("a"), ident("b")]));
    assert!(same("a\u{e9}b", vec![ident("a"), ident("b")]));
    assert!(same("Ab", vec![ident("Ab")]));
    assert!(same("", vec![]));
    assert!(same("   \t\n", vec![]));
    assert!(same("x,", vec![ident("x"), punct(TokenT::Comma)]));
}

#[test]
fn eq_compares_token_lists_only() {
    let a = Tokens::tokenize(&"a = 1".to_string(), &"S0".to_string()).unwrap();
    let b = Tokens::tokenize(&"a   =1".to_string(), &"S9".to_string()).unwrap();
    assert!(a.eq(&b).unwrap());
    let c = Tokens::tokenize(&"a = 2".to_string(), &"S0".to_string()).unwrap();
    assert!(!a.eq(&c).unwrap());
    let d = Tokens::tokenize(&"a =".to_string(), &"S0".to_string()).unwrap();
    assert!(!a.eq(&d).unwrap());
}

#[test]
fn select_token_steps_through_the_stream() {
    let tokens = Tokens::tokenize(&"ab >".to_string(), &"S0".to_string()).unwrap();
    let mut index = 0;
    let t = tokens.select_token(&mut index).unwrap();
    assert_eq!(t.token_t, TokenT::Ident);
    assert_eq!(t.val, "ab");
    assert_eq!(index, 2);
    let t = tokens.select_token(&mut index).unwrap();
    assert_eq!(t.token_t, TokenT::Whitespace);
    assert_eq!(index, 3);
    let t = tokens.select_token(&mut index).unwrap();
    assert_eq!(t.token_t, TokenT::Greater);
    assert_eq!(index, 4);
    let t = tokens.select_token(&mut index).unwrap();
    assert_eq!(t.token_t, TokenT::Error);
    assert_eq!(index, 4);
}

#[test]
fn a_blank_splits_the_token_list() {
    let me = "S0".to_string();
    let a = "select x,y".to_string();
    let b = "from t where x > 1.5".to_string();
    let joined = Tokens::tokenize(&format!("{} {}", a, b), &me).unwrap();
    let left = Tokens::tokenize(&a, &me).unwrap();
    let right = Tokens::tokenize(&b, &me).unwrap();
    let mut both = left.token_list;
    both.extend(right.token_list);
    assert!(joined.eq(&expected(both)).unwrap());
}
