use textutils::echor::echo;

fn words(text: &[&str]) -> Vec<String> {
    text.iter().map(|word| word.to_string()).collect()
}

#[test]
fn echo_joins_its_arguments_with_one_space() {
    assert_eq!(echo(&words(&["Hello", "there"]), false), "Hello there\n");
    assert_eq!(echo(&words(&["Hello  there"]), false), "Hello  there\n");
    assert_eq!(echo(&words(&["a", "", "b"]), false), "a  b\n");
}

#[test]
fn echo_leaves_out_the_line_feed_where_asked() {
    assert_eq!(echo(&words(&["Hello", "there"]), true), "Hello there");
    assert_eq!(echo(&words(&["one"]), true), "one");
}

#[test]
fn echo_of_nothing_is_an_empty_line() {
    assert_eq!(echo(&words(&[]), false), "\n");
    assert_eq!(echo(&words(&[]), true), "");
}
