use textutils::error::Error;
use textutils::headr::{
    header, parse_positive_int, process, run, select, take_bytes, take_lines, Config, LineBudget,
};
use textutils::stream::{Output, Sink, Source};

fn config(files: &[&str], lines: Option<&str>, bytes: Option<&str>) -> Config {
    let names = files.iter().map(|name| name.to_string()).collect();
    Config::new(names, lines, bytes).unwrap()
}

fn stdout(bytes: &[u8]) -> Output {
    Output { sink: Sink::Stdout, bytes: bytes.to_vec() }
}

#[test]
fn test_parse_positive_int() {
    let res = parse_positive_int("3");
    assert!(res.is_ok());
    assert_eq!(res.unwrap(), 3);

    let res = parse_positive_int("foo");
    assert!(res.is_err());
    assert_eq!(res.unwrap_err().to_string(), "foo".to_string());

    let res = parse_positive_int("0");
    assert!(res.is_err());
    assert_eq!(res.unwrap_err().to_string(), "0".to_string());
}

#[test]
fn parse_positive_int_reads_what_rust_reads() {
    assert_eq!(parse_positive_int("+7").unwrap(), 7);
    assert_eq!(parse_positive_int("0012").unwrap(), 12);
    let largest = "18446744073709551615";
    assert_eq!(parse_positive_int(largest).ok(), largest.parse().ok());
    for bad in ["", "+", "-1", " 1", "1 ", "1_000", "++1", "1.0", "000", "+0", "\u{663}"] {
        let res = parse_positive_int(bad);
        assert!(res.is_err());
        let err = res.unwrap_err();
        assert!(matches!(err, Error::Configuration(_)));
        assert_eq!(err.to_string(), bad);
    }
}

#[test]
fn parse_positive_int_refuses_a_number_that_is_too_large() {
    assert!(parse_positive_int("340282366920938463463374607431768211456").is_err());
    assert!(parse_positive_int("99999999999999999999999999").is_err());
}

#[test]
fn config_takes_ten_lines_where_no_limit_is_given() {
    let cfg = config(&["a"], None, None);
    assert_eq!(cfg.lines, 10);
    assert_eq!(cfg.bytes, None);
    assert_eq!(cfg.files, vec!["a".to_string()]);
}

#[test]
fn config_reads_its_limits() {
    let cfg = config(&[], Some("3"), None);
    assert_eq!(cfg.lines, 3);
    assert_eq!(cfg.bytes, None);
    assert_eq!(cfg.files, vec!["-".to_string()]);
    let cfg = config(&["a", "b"], None, Some("12"));
    assert_eq!(cfg.lines, 10);
    assert_eq!(cfg.bytes, Some(12));
}

#[test]
fn config_refuses_a_limit_that_is_no_positive_number() {
    let err = Config::new(vec![], Some("0"), None).unwrap_err();
    assert!(matches!(err, Error::Configuration(_)));
    assert_eq!(err.to_string(), "0");
    let err = Config::new(vec![], None, Some("many")).unwrap_err();
    assert!(matches!(err, Error::Configuration(_)));
    assert_eq!(err.to_string(), "many");
}

#[test]
fn config_refuses_lines_together_with_bytes() {
    let err = Config::new(vec![], Some("1"), Some("2")).unwrap_err();
    assert!(matches!(err, Error::Configuration(_)));
    assert_eq!(err.to_string(), "the argument '--lines' cannot be used with '--bytes'");
}

#[test]
fn take_lines_gives_the_first_lines_with_their_line_feeds() {
    let data = b"one\ntwo\r\nthree\nfour\nfive\n";
    assert_eq!(take_lines(data, 2), b"one\ntwo\r\n");
    assert_eq!(take_lines(data, 1), b"one\n");
    assert_eq!(take_lines(data, 5), data);
}

#[test]
fn take_lines_gives_all_where_the_input_is_shorter() {
    let data = b"one\ntwo";
    assert_eq!(take_lines(data, 2), data);
    assert_eq!(take_lines(data, 3), data);
    assert_eq!(take_lines(data, usize::MAX), data);
    assert_eq!(take_lines(b"", 4), b"");
}

#[test]
fn take_lines_counts_empty_lines() {
    assert_eq!(take_lines(b"\n\n\nx\n", 2), b"\n\n");
    assert_eq!(take_lines(b"\n\n\nx\n", 0), b"");
}

#[test]
fn take_lines_passes_bytes_through_that_are_no_text() {
    let data = [0xff, 0xfe, b'\n', 0x80, b'\n', b'z'];
    assert_eq!(take_lines(&data, 2), &data[..5]);
}

#[test]
fn take_bytes_gives_the_first_bytes() {
    let data = b"hello\nworld\n";
    assert_eq!(take_bytes(data, 4), b"hell");
    assert_eq!(take_bytes(data, 6), b"hello\n");
    assert_eq!(take_bytes(data, 12), data);
    assert_eq!(take_bytes(data, 13), data);
    assert_eq!(take_bytes(data, 0), b"");
    assert_eq!(take_bytes(b"", 3), b"");
}

#[test]
fn select_in_bytes_replaces_what_is_no_text() {
    let cfg = config(&["a"], None, Some("2"));
    let mut out = b">".to_vec();
    select(&cfg, "\u{20ac}uro".as_bytes(), &mut out);
    assert_eq!(out, ">\u{fffd}".as_bytes());
    let cfg = config(&["a"], None, Some("4"));
    let mut out = Vec::new();
    select(&cfg, "\u{20ac}uro".as_bytes(), &mut out);
    assert_eq!(out, "\u{20ac}u".as_bytes());
}

#[test]
fn select_in_lines_takes_lines() {
    let cfg = config(&["a"], Some("2"), None);
    let mut out = Vec::new();
    select(&cfg, b"1\n2\n3\n", &mut out);
    assert_eq!(out, b"1\n2\n");
}

#[test]
fn header_is_written_for_more_than_one_input() {
    assert_eq!(header(0, 1, "a.txt"), "");
    assert_eq!(header(0, 2, "a.txt"), "==> a.txt <==\n");
    assert_eq!(header(1, 2, "b.txt"), "\n==> b.txt <==\n");
    assert_eq!(header(2, 3, "-"), "\n==> - <==\n");
}

#[test]
fn run_takes_two_lines_of_five() {
    let cfg = config(&["five.txt"], Some("2"), None);
    let data = b"line 1\nline 2\nline 3\nline 4\nline 5\n".to_vec();
    let outputs = run(&cfg, &vec![Source::Data(data)]);
    assert_eq!(outputs, vec![stdout(b"line 1\nline 2\n")]);
}

#[test]
fn run_names_each_of_several_inputs() {
    let cfg = config(&["a", "b", "c"], Some("1"), None);
    let sources = vec![
        Source::Data(b"a1\na2\n".to_vec()),
        Source::Failed(Error::Open("Permission denied (os error 13)".to_string())),
        Source::Data(b"c1".to_vec()),
    ];
    let outputs = run(&cfg, &sources);
    assert_eq!(
        outputs,
        vec![
            stdout(b"==> a <==\na1\n"),
            Output {
                sink: Sink::Stderr,
                bytes: b"b: Permission denied (os error 13)\n".to_vec()
            },
            stdout(b"\n==> c <==\nc1"),
        ]
    );
}

#[test]
fn process_in_bytes_takes_bytes() {
    let cfg = config(&["a", "b"], None, Some("3"));
    let out = process(&cfg, 1, &Source::Data(b"abcdef".to_vec()));
    assert_eq!(out, stdout(b"\n==> b <==\nabc"));
}

#[test]
fn line_budget_takes_the_first_lines_of_what_is_read() {
    let increments: [&[u8]; 5] = [b"1\n", b"2\n", b"3\n", b"4\n", b"5\n"];
    let mut budget = LineBudget::new(2);
    let mut written = Vec::new();
    let mut read = 0;
    while budget.wants_more() {
        let increment = increments[read];
        read += 1;
        if budget.accept(increment) {
            written.extend_from_slice(increment);
        }
    }
    assert_eq!(written, b"1\n2\n");
    assert_eq!(read, 2);
    assert_eq!(written, take_lines(b"1\n2\n3\n4\n5\n", 2));
}

#[test]
fn line_budget_stops_at_the_end_of_the_input() {
    let mut budget = LineBudget::new(3);
    assert!(budget.accept(b"only"));
    assert!(budget.wants_more());
    assert!(!budget.accept(b""));
    assert!(!budget.wants_more());
    assert_eq!(budget, LineBudget { remaining: 0 });
    let mut none = LineBudget::new(0);
    assert!(!none.wants_more());
    assert!(!none.accept(b"x\n"));
}

#[test]
fn select_in_bytes_keeps_text_as_it_is() {
    let text = "a\n\u{e9}\n\u{20ac}z";
    let cfg = config(&["a"], None, Some("8"));
    let mut out = Vec::new();
    select(&cfg, text.as_bytes(), &mut out);
    assert_eq!(out, &text.as_bytes()[..8]);
    let cfg = config(&["a"], None, Some("7"));
    let mut out = Vec::new();
    select(&cfg, text.as_bytes(), &mut out);
    assert_eq!(out, "a\n\u{e9}\n\u{fffd}".as_bytes());
}
