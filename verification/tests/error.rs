use textutils::error::Error;

#[test]
fn error_carries_its_message() {
    assert_eq!(Error::Configuration("12x".to_string()).to_string(), "12x");
    assert_eq!(Error::Open("no such file".to_string()).to_string(), "no such file");
    assert_eq!(Error::Read("broken pipe".to_string()).as_str(), "broken pipe");
}
