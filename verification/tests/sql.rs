use std::io::BufRead;
use school_cats::sql::{force_init, init_error_aborts, is_white_space, read_chunks, sql_statements, sql_statements_gbk, statements};

#[test]
fn script_is_cut_into_trimmed_statements() {
    let script = "CREATE TABLE a (x int);\n\n  DROP TABLE b ;\n;  \n-- end";
    assert_eq!(sql_statements(script), vec!["CREATE TABLE a (x int);", "DROP TABLE b;", "-- end;"]);
}

#[test]
fn empty_and_blank_scripts_have_no_statements() {
    assert!(sql_statements("").is_empty());
    assert!(sql_statements(" ;\n;\t").is_empty());
}

#[test]
fn unicode_text_and_spaces_are_kept_inside() {
    assert_eq!(sql_statements("INSERT INTO Place (details) VALUES (\"三食堂 门口\")"), vec!["INSERT INTO Place (details) VALUES (\"三食堂 门口\");"]);
    assert_eq!(sql_statements("\u{3000}a b\u{a0};"), vec!["a b;"]);
}

#[test]
fn statements_of_pieces() {
    let pieces = vec![" a ".to_string(), "".to_string(), "b".to_string()];
    assert_eq!(statements(&pieces), vec!["a;", "b;"]);
}

#[test]
fn chunks_follow_bufread_split() {
    for input in [&b""[..], b";", b"a;b", b"a;b;", b";;x", b"abc", b"a;;"] {
        let expected: Vec<Vec<u8>> = std::io::Cursor::new(input).split(b';').map(|c| c.unwrap()).collect();
        assert_eq!(read_chunks(input), expected, "{:?}", input);
    }
}

#[test]
fn gbk_script() {
    // "测试" in GBK is B2 E2 CA D4
    let bytes = [b'a', b';', b' ', 0xB2, 0xE2, 0xCA, 0xD4, b' ', b';'];
    assert_eq!(sql_statements_gbk(&bytes), Some(vec!["a;".to_string(), "测试;".to_string()]));
    assert_eq!(sql_statements_gbk(&[0x81, b';']), None);
    assert_eq!(sql_statements_gbk(b""), Some(vec![]));
}

#[test]
fn init_policies() {
    assert!(!init_error_aborts(None, true));
    assert!(!init_error_aborts(Some("1"), true));
    assert!(init_error_aborts(Some("0"), true));
    assert!(!init_error_aborts(Some("0"), false));
    assert!(force_init(Some("1")));
    assert!(!force_init(Some("yes")));
    assert!(!force_init(None));
}

#[test]
fn ascii_scripts_read_the_same_either_way() {
    let script = "CREATE TABLE t (x int);\n INSERT INTO t VALUES (1) ;\n\n";
    assert_eq!(sql_statements_gbk(script.as_bytes()), Some(sql_statements(script)));
}

#[test]
fn white_space_agrees_with_std() {
    for c in (0u32..=0x10ffff).filter_map(char::from_u32) {
        assert_eq!(is_white_space(c), c.is_whitespace(), "{:?}", c);
    }
    assert!(is_white_space('\u{2003}'));
    assert!(!is_white_space('\u{200b}'));
    assert!(!is_white_space('\u{180e}'));
}
