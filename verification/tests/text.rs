use mcpm::text::{
    chars_of, append, contains, decimal_text, digit_of, is_digit_char, join, precedes, split,
    text_of, text_of_range,
};

#[test]
fn texts_are_cut_and_put_together() {
    assert_eq!(chars_of("a-b"), vec!['a', '-', 'b']);
    assert_eq!(text_of(&vec!['x', 'y']), "xy");
    assert_eq!(text_of_range(&vec!['a', 'b', 'c', 'd'], 1, 3), "bc");
    assert_eq!(text_of_range(&vec!['a', 'b'], 2, 2), "");
    assert_eq!(append("mod", "rinth"), "modrinth");
    assert_eq!(append("", ""), "");
}

#[test]
fn splitting_keeps_empty_pieces() {
    assert_eq!(split("1.2.3", '.'), vec!["1", "2", "3"]);
    assert_eq!(split("1", '.'), vec!["1"]);
    assert_eq!(split("", '.'), vec![""]);
    assert_eq!(split(".1..", '.'), vec!["", "1", "", ""]);
}

#[test]
fn joining_undoes_splitting() {
    for text in ["1.2.3", "", ".", "a..b.", "no dots"] {
        assert_eq!(join(&split(text, '.'), '.'), text);
    }
    assert_eq!(join(&Vec::new(), '.'), "");
    assert_eq!(join(&vec!["a".to_string(), "".to_string()], '/'), "a/");
}

#[test]
fn occurrence_is_found_anywhere() {
    assert!(contains("sodium-extra", "extra"));
    assert!(contains("sodium-extra", "sodium"));
    assert!(contains("sodium-extra", "m-e"));
    assert!(contains("sodium", ""));
    assert!(contains("", ""));
    assert!(!contains("sodium", "sodium-extra"));
    assert!(!contains("sodium", "sx"));
    assert!(!contains("", "a"));
}

#[test]
fn numbers_are_written_in_decimal() {
    assert_eq!(decimal_text(0), "0");
    assert_eq!(decimal_text(7), "7");
    assert_eq!(decimal_text(20), "20");
    assert_eq!(decimal_text(1905), "1905");
    assert_eq!(decimal_text(usize::MAX), usize::MAX.to_string());
    assert_eq!(digit_of(4), '4');
    assert!(is_digit_char('0') && is_digit_char('9'));
    assert!(!is_digit_char('a') && !is_digit_char('/') && !is_digit_char(':'));
}

#[test]
fn texts_are_ordered_as_std_orders_them() {
    let samples = ["", "a", "ab", "b", "B", "modrinth:a", "modrinth:b", "maven:z", "é", "z"];
    for a in samples {
        for b in samples {
            assert_eq!(precedes(a, b), a <= b, "{:?} against {:?}", a, b);
        }
    }
}
