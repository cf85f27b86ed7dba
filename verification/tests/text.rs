use load_s3_agent::text::{decimal_text, escape_single, str_less};

#[test]
fn single_quotes_are_doubled() {
    assert_eq!(escape_single("o'neil"), "o''neil");
    assert_eq!(escape_single("''"), "''''");
    assert_eq!(escape_single("plain"), "plain");
    assert_eq!(escape_single(""), "");
    assert_eq!(escape_single("\"double\" and \\ stay"), "\"double\" and \\ stay");
    assert_eq!(escape_single("é'ü"), "é''ü");
}

#[test]
fn numbers_are_written_in_decimal() {
    assert_eq!(decimal_text(0), "0");
    assert_eq!(decimal_text(7), "7");
    assert_eq!(decimal_text(10), "10");
    assert_eq!(decimal_text(101), "101");
    assert_eq!(decimal_text(9_007_199), "9007199");
    assert_eq!(decimal_text(usize::MAX), usize::MAX.to_string());
}

#[test]
fn strings_are_ordered_by_their_bytes() {
    assert!(str_less("a", "b"));
    assert!(!str_less("b", "a"));
    assert!(!str_less("a", "a"));
    assert!(str_less("", "a"));
    assert!(!str_less("", ""));
    assert!(str_less("a", "ab"));
    assert!(str_less("Z", "a"));
    assert!(str_less("z", "é"));
    for (a, b) in [("x", "y"), ("abc", "abd"), ("A-1", "A_1"), ("10", "9")] {
        assert_eq!(str_less(a, b), a < b);
        assert_eq!(str_less(b, a), b < a);
    }
}
