use textutils::stream::{
    count_lines, failure, increment_end, inputs_or_stdin, is_stdin, text_output, Output, Sink,
};

#[test]
fn increment_end_is_after_the_next_line_feed() {
    let data = b"ab\n\ncd";
    assert_eq!(increment_end(data, 0), 3);
    assert_eq!(increment_end(data, 1), 3);
    assert_eq!(increment_end(data, 2), 3);
    assert_eq!(increment_end(data, 3), 4);
    assert_eq!(increment_end(data, 4), 6);
    assert_eq!(increment_end(data, 6), 6);
}

#[test]
fn count_lines_counts_the_increments() {
    assert_eq!(count_lines(b""), 0);
    assert_eq!(count_lines(b"\n"), 1);
    assert_eq!(count_lines(b"a"), 1);
    assert_eq!(count_lines(b"a\n"), 1);
    assert_eq!(count_lines(b"a\nb"), 2);
    assert_eq!(count_lines(b"a\nb\n"), 2);
    assert_eq!(count_lines(b"\n\n\n"), 3);
    assert_eq!(count_lines(b"a\r\nb\r\n"), 2);
}

#[test]
fn count_lines_is_one_more_than_the_line_feeds_of_an_open_input() {
    for text in ["a", "a\nb", "\n\nx", "one\ntwo\nthree"] {
        let feeds = text.bytes().filter(|b| *b == b'\n').count();
        assert_eq!(count_lines(text.as_bytes()), feeds + 1);
    }
    for text in ["\n", "a\n", "a\nb\n", "\n\n"] {
        let feeds = text.bytes().filter(|b| *b == b'\n').count();
        assert_eq!(count_lines(text.as_bytes()), feeds);
    }
}

#[test]
fn is_stdin_knows_the_one_name() {
    assert!(is_stdin("-"));
    assert!(!is_stdin(""));
    assert!(!is_stdin("--"));
    assert!(!is_stdin("a"));
    assert!(!is_stdin("\u{2212}"));
}

#[test]
fn inputs_or_stdin_fills_in_standard_input() {
    assert_eq!(inputs_or_stdin(Vec::new()), vec!["-".to_string()]);
    let named = vec!["a".to_string(), "-".to_string()];
    assert_eq!(inputs_or_stdin(named.clone()), named);
}

#[test]
fn text_output_encodes_the_text() {
    let out = text_output(Sink::Stdout, "gr\u{fc}n\n");
    let bytes = vec![b'g', b'r', 0xc3, 0xbc, b'n', b'\n'];
    assert_eq!(out, Output { sink: Sink::Stdout, bytes });
}

#[test]
fn failure_names_the_input() {
    let out = failure("a.txt", "Permission denied (os error 13)");
    assert_eq!(
        out,
        Output { sink: Sink::Stderr, bytes: b"a.txt: Permission denied (os error 13)\n".to_vec() }
    );
}
