use textutils::error::Error;
use textutils::stream::{Output, Sink, Source};
use textutils::wcr::{
    add_total, count, finish, format_field, format_row, format_total, process, run, Config,
    FileInfo, Total,
};

fn config(files: &[&str], lines: bool, words: bool, bytes: bool, chars: bool) -> Config {
    let names = files.iter().map(|name| name.to_string()).collect();
    Config::new(names, lines, words, bytes, chars).unwrap()
}

fn stdout(text: &str) -> Output {
    Output { sink: Sink::Stdout, bytes: text.as_bytes().to_vec() }
}

fn stderr(text: &str) -> Output {
    Output { sink: Sink::Stderr, bytes: text.as_bytes().to_vec() }
}

#[test]
fn test_count() {
    let text = "I don't want the world. I just want your half.\r\n";
    let info = count(text.as_bytes());
    assert!(info.is_ok());
    let expected = FileInfo { num_lines: 1, num_words: 10, num_bytes: 48, num_chars: 48 };

    assert_eq!(info.unwrap(), expected);
}

#[test]
fn test_format_field() {
    assert_eq!(format_field(1, false), "");
    assert_eq!(format_field(3, true), "       3");
    assert_eq!(format_field(10, true), "      10");
}

#[test]
fn count_of_empty_input_is_all_zero() {
    let expected = FileInfo { num_lines: 0, num_words: 0, num_bytes: 0, num_chars: 0 };
    assert_eq!(count(b"").unwrap(), expected);
}

#[test]
fn count_includes_a_last_line_without_line_feed() {
    let info = count(b"one two\nthree").unwrap();
    assert_eq!(info, FileInfo { num_lines: 2, num_words: 3, num_bytes: 13, num_chars: 13 });
}

#[test]
fn count_has_one_line_for_each_line_feed_of_a_terminated_input() {
    let info = count(b"a\n\n\nb\n").unwrap();
    assert_eq!(info, FileInfo { num_lines: 4, num_words: 2, num_bytes: 6, num_chars: 6 });
}

#[test]
fn count_tells_characters_from_bytes() {
    let text = "na\u{ef}ve caf\u{e9}\n\u{65e5}\u{672c}\u{8a9e}\n";
    let info = count(text.as_bytes()).unwrap();
    assert_eq!(info, FileInfo { num_lines: 2, num_words: 3, num_bytes: 23, num_chars: 15 });
}

#[test]
fn count_splits_words_at_unicode_white_space() {
    let text = "a\u{a0}b\u{2003}c\u{3000}d\te\u{b}f\u{85}g";
    let info = count(text.as_bytes()).unwrap();
    assert_eq!(info.num_words, 7);
    assert_eq!(info.num_lines, 1);
    assert_eq!(info.num_chars, 13);
}

#[test]
fn count_of_white_space_alone_has_no_word() {
    let info = count(b" \t \r\n  \n").unwrap();
    assert_eq!(info, FileInfo { num_lines: 2, num_words: 0, num_bytes: 8, num_chars: 8 });
}

#[test]
fn count_rejects_bytes_that_are_not_utf8() {
    let res = count(&[b'a', 0xff, b'\n']);
    assert!(res.is_err());
    let err = res.unwrap_err();
    assert!(matches!(err, Error::Read(_)));
    assert_eq!(err.to_string(), "stream did not contain valid UTF-8");
}

#[test]
fn count_rejects_a_character_cut_short() {
    assert!(count(&[0xe2, 0x82]).is_err());
    assert!(count(&[0xe2, 0x82, 0xac]).is_ok());
}

#[test]
fn format_field_keeps_a_number_wider_than_the_field() {
    assert_eq!(format_field(123456789, true), "123456789");
    assert_eq!(format_field(12345678, true), "12345678");
    assert_eq!(format_field(0, true), "       0");
    assert_eq!(format_field(usize::MAX, false), "");
}

#[test]
fn format_row_shows_the_fields_asked_for_in_fixed_order() {
    let info = FileInfo { num_lines: 1, num_words: 2, num_bytes: 30, num_chars: 4 };
    let all = Config {
        files: vec!["f".to_string()],
        lines: true,
        words: true,
        bytes: true,
        chars: true,
    };
    assert_eq!(format_row(&info, &all, "f"), "       1       2      30       4 f");
    let some = config(&["f"], false, true, false, true);
    assert_eq!(format_row(&info, &some, "f"), "       2       4 f");
}

#[test]
fn format_row_without_fields_is_the_name_alone() {
    let info = FileInfo { num_lines: 7, num_words: 8, num_bytes: 9, num_chars: 9 };
    let none = Config {
        files: vec!["notes.txt".to_string(), "-".to_string()],
        lines: false,
        words: false,
        bytes: false,
        chars: false,
    };
    assert_eq!(format_row(&info, &none, "notes.txt"), " notes.txt");
    assert_eq!(format_row(&info, &none, "-"), "");
}

#[test]
fn format_row_leaves_out_the_name_of_standard_input() {
    let info = FileInfo { num_lines: 1, num_words: 2, num_bytes: 3, num_chars: 3 };
    let cfg = config(&[], false, false, false, false);
    assert_eq!(format_row(&info, &cfg, "-"), "       1       2       3");
    assert_eq!(format_row(&info, &cfg, "--"), "       1       2       3 --");
}

#[test]
fn format_total_ends_with_the_word_total() {
    let total = Total { lines: 6, words: 10, bytes: 40, chars: 40 };
    let cfg = config(&["a", "b"], false, false, false, false);
    assert_eq!(format_total(&total, &cfg), "       6      10      40 total");
}

#[test]
fn add_total_sums_each_count() {
    let mut total = Total::new();
    assert_eq!(total, Total { lines: 0, words: 0, bytes: 0, chars: 0 });
    add_total(&mut total, FileInfo { num_lines: 1, num_words: 2, num_bytes: 3, num_chars: 4 });
    add_total(&mut total, FileInfo { num_lines: 10, num_words: 20, num_bytes: 30, num_chars: 40 });
    assert_eq!(total, Total { lines: 11, words: 22, bytes: 33, chars: 44 });
}

#[test]
fn config_shows_lines_words_and_bytes_where_nothing_is_asked_for() {
    let cfg = config(&["a"], false, false, false, false);
    assert!(cfg.lines && cfg.words && cfg.bytes && !cfg.chars);
    assert_eq!(cfg.files, vec!["a".to_string()]);
}

#[test]
fn config_keeps_what_is_asked_for() {
    let cfg = config(&["a", "b"], false, true, false, false);
    assert!(!cfg.lines && cfg.words && !cfg.bytes && !cfg.chars);
    let cfg = config(&["a"], false, false, false, true);
    assert!(!cfg.lines && !cfg.words && !cfg.bytes && cfg.chars);
}

#[test]
fn config_reads_standard_input_where_no_input_is_named() {
    let cfg = config(&[], true, false, false, false);
    assert_eq!(cfg.files, vec!["-".to_string()]);
}

#[test]
fn config_refuses_bytes_together_with_characters() {
    let res = Config::new(vec![], false, false, true, true);
    assert!(res.is_err());
    let err = res.unwrap_err();
    assert!(matches!(err, Error::Configuration(_)));
    assert_eq!(err.to_string(), "the argument '--bytes' cannot be used with '--chars'");
}

#[test]
fn run_on_two_files_writes_two_lines_and_the_total() {
    let cfg = config(&["a.txt", "b.txt"], false, false, false, false);
    let text = b"ab cd\nef gh\nijklmno\n".to_vec();
    assert_eq!(
        count(&text).unwrap(),
        FileInfo { num_lines: 3, num_words: 5, num_bytes: 20, num_chars: 20 }
    );
    let sources = vec![Source::Data(text.clone()), Source::Data(text)];
    let outputs = run(&cfg, &sources);
    assert_eq!(
        outputs,
        vec![
            stdout("       3       5      20 a.txt\n"),
            stdout("       3       5      20 b.txt\n"),
            stdout("       6      10      40 total\n"),
        ]
    );
}

#[test]
fn run_on_one_file_writes_no_total() {
    let cfg = config(&["a.txt"], true, false, false, false);
    let outputs = run(&cfg, &vec![Source::Data(b"x\ny\n".to_vec())]);
    assert_eq!(outputs, vec![stdout("       2 a.txt\n")]);
}

#[test]
fn run_reports_a_missing_file_and_goes_on() {
    let cfg = config(&["missing.txt", "here.txt"], false, false, false, false);
    let sources = vec![
        Source::Failed(Error::Open("No such file or directory (os error 2)".to_string())),
        Source::Data(b"one two\n".to_vec()),
    ];
    let outputs = run(&cfg, &sources);
    assert_eq!(
        outputs,
        vec![
            stderr("missing.txt: No such file or directory (os error 2)\n"),
            stdout("       1       2       8 here.txt\n"),
            stdout("       1       2       8 total\n"),
        ]
    );
}

#[test]
fn run_leaves_a_failed_file_out_of_the_total() {
    let cfg = config(&["a", "b", "c"], true, false, false, true);
    let sources = vec![
        Source::Data(b"1\n2\n".to_vec()),
        Source::Data(vec![0xc3, 0x28, b'\n']),
        Source::Failed(Error::Read("Is a directory (os error 21)".to_string())),
    ];
    let outputs = run(&cfg, &sources);
    assert_eq!(
        outputs,
        vec![
            stdout("       2       4 a\n"),
            stderr("b: stream did not contain valid UTF-8\n"),
            stderr("c: Is a directory (os error 21)\n"),
            stdout("       2       4 total\n"),
        ]
    );
}

#[test]
fn process_and_finish_give_what_run_gives() {
    let cfg = config(&["-", "b"], false, false, false, false);
    let mut total = Total::new();
    let first = process(&cfg, "-", &Source::Data(b"a b c\n".to_vec()), &mut total);
    assert_eq!(first, Some(stdout("       1       3       6\n")));
    let second = process(&cfg, "b", &Source::Data(b"\n".to_vec()), &mut total);
    assert_eq!(second, Some(stdout("       1       0       1 b\n")));
    assert_eq!(total, Total { lines: 2, words: 3, bytes: 7, chars: 7 });
    assert_eq!(finish(&cfg, &total), Some(stdout("       2       3       7 total\n")));
    let single = config(&["b"], false, false, false, false);
    assert_eq!(finish(&single, &total), None);
}

#[test]
fn process_gives_nothing_where_the_totals_are_full() {
    let cfg = config(&["a", "b"], false, false, false, false);
    let full = Total { lines: 0, words: 0, bytes: usize::MAX - 2, chars: 0 };
    let mut total = full;
    assert_eq!(process(&cfg, "a", &Source::Data(b"abc".to_vec()), &mut total), None);
    assert_eq!(total, full);
    assert!(!total.has_room(&FileInfo { num_lines: 0, num_words: 0, num_bytes: 3, num_chars: 0 }));
    assert!(total.has_room(&FileInfo { num_lines: 1, num_words: 1, num_bytes: 2, num_chars: 2 }));
    let out = process(&cfg, "a", &Source::Data(b"ab".to_vec()), &mut total);
    assert_eq!(out, Some(stdout(&format!("       1       1       2 a\n"))));
    assert_eq!(total.bytes, usize::MAX);
    let failed = Source::Failed(Error::Open("gone".to_string()));
    assert_eq!(process(&cfg, "b", &failed, &mut total), Some(stderr("b: gone\n")));
}

#[test]
fn count_can_be_taken_increment_by_increment() {
    let text = "Na\u{ef}ve caf\u{e9}\n\n  two  words\r\nno end";
    let whole = count(text.as_bytes()).unwrap();
    let mut sum = Total::new();
    for increment in text.split_inclusive('\n') {
        let part = count(increment.as_bytes()).unwrap();
        assert_eq!(part.num_lines, 1);
        add_total(&mut sum, part);
    }
    assert_eq!(
        sum,
        Total {
            lines: whole.num_lines,
            words: whole.num_words,
            bytes: whole.num_bytes,
            chars: whole.num_chars
        }
    );
    assert_eq!(whole, FileInfo { num_lines: 4, num_words: 6, num_bytes: 34, num_chars: 32 });
}

#[test]
fn config_is_the_one_of_the_args_module() {
    let cfg = textutils::wcr::args::Config::new(vec!["a".to_string()], true, false, false, false);
    assert_eq!(format_row(&count(b"x\n").unwrap(), &cfg.unwrap(), "a"), "       1 a");
}
