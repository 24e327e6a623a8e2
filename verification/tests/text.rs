use dianadb::text::{chars_of, decimal_string, split_words};
use dianadb::{get_res, get_res_mut};

#[test]
fn decimal_rendering() {
    assert_eq!(decimal_string(0), "0");
    assert_eq!(decimal_string(7), "7");
    assert_eq!(decimal_string(10), "10");
    assert_eq!(decimal_string(4096), "4096");
    assert_eq!(decimal_string(usize::MAX), usize::MAX.to_string());
}

#[test]
fn whitespace_splitting() {
    assert_eq!(split_words("  a bb\tc\n"), vec!["a", "bb", "c"]);
    assert_eq!(split_words(""), Vec::<String>::new());
    assert_eq!(split_words("x\u{3000}y\u{a0}z"), vec!["x", "y", "z"]);
    let s = "one  two\u{2003}three\r\n";
    let expected: Vec<String> = s.split_whitespace().map(|w| w.to_string()).collect();
    assert_eq!(split_words(s), expected);
}

#[test]
fn chars_in_order() {
    assert_eq!(chars_of("h\u{e9}"), vec!['h', '\u{e9}']);
}

#[test]
fn indexing_with_errors() {
    let v = vec![1, 2, 3];
    assert_eq!(*get_res(&v, 2).unwrap(), 3);
    assert!(get_res(&v, 3).is_err());
    let mut w = vec![1, 2, 3];
    *get_res_mut(&mut w, 0).unwrap() = 9;
    assert_eq!(w, vec![9, 2, 3]);
    assert!(get_res_mut(&mut w, 5).is_err());
}
