use marpa::thin::desc::{err_desc, err_words, ERR_I_AM_NOT_OK};
use marpa::tree_builder::render::{decimal, hex, list};

#[test]
fn test_test_not_ok() {
    assert!(err_desc(29) == Some("Marpa is in a not OK state"));
}

#[test]
fn desc_test_not_ok() {
    assert!(err_desc(29) == Some("Marpa is in a not OK state"));
    assert_eq!(ERR_I_AM_NOT_OK, 29);
}

#[test]
fn words_of_error_codes() {
    assert_eq!(err_words(29), Some("Marpa is in a not OK state".to_string()));
    assert_eq!(err_words(-1), Some("undefined error code: -1".to_string()));
    assert_eq!(err_words(-2), Some("undefined error code: -2".to_string()));
    assert_eq!(
        err_words(i32::MIN),
        Some("undefined error code: -2147483648".to_string())
    );
    assert_eq!(err_words(0), None);
    assert_eq!(err_words(90), None);
    assert_eq!(err_desc(-1), None);
    assert_eq!(err_desc(28), None);
}

#[test]
fn numbers_are_written_as_the_standard_library_writes_them() {
    for n in [0, 1, 9, 10, 11, 99, 100, 101, 12345, 1000000, i32::MAX, -1, -9, -10, -4711, i32::MIN + 1, i32::MIN] {
        assert_eq!(decimal(n), format!("{}", n));
    }
    for b in 0..=255u8 {
        assert_eq!(hex(b), format!("{:x}", b));
    }
    assert_eq!(hex(0), "0");
    assert_eq!(hex(15), "f");
    assert_eq!(hex(16), "10");
    assert_eq!(hex(171), "ab");
    for bytes in [vec![], vec![0u8], vec![255, 1], vec![7, 8, 9, 100, 0]] {
        assert_eq!(list(&bytes), format!("{:?}", bytes));
    }
    assert_eq!(list(&[]), "[]");
    assert_eq!(list(&[255, 1]), "[255, 1]");
}
