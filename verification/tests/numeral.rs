use textutils::numeral::{decimal_string, parse_unsigned};

#[test]
fn decimal_string_writes_the_shortest_numeral() {
    assert_eq!(decimal_string(0), "0");
    assert_eq!(decimal_string(7), "7");
    assert_eq!(decimal_string(10), "10");
    assert_eq!(decimal_string(9081726354), "9081726354");
    assert_eq!(decimal_string(usize::MAX), usize::MAX.to_string());
}

#[test]
fn parse_unsigned_reads_what_rust_reads() {
    for text in [
        "0", "1", "+1", "+0", "007", "42", "18446744073709551615", "18446744073709551616", "", "+",
        "-", "-0", "-1", "++1", "+-1", "1+", " 1", "1 ", "1_0", "0x10", "1e3", "\u{661}", "12a",
    ] {
        assert_eq!(parse_unsigned(text), text.parse::<usize>().ok());
    }
}

#[test]
fn parse_unsigned_reads_back_what_decimal_string_writes() {
    for n in [0, 1, 9, 10, 99, 100, 12345, usize::MAX - 1, usize::MAX] {
        assert_eq!(parse_unsigned(&decimal_string(n)), Some(n));
    }
}
