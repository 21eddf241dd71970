use mini_shell::ParseError;

#[test]
fn each_error_renders_to_one_message_line() {
    assert_eq!(ParseError::EmptyInput.message(), "Empty command");
    assert_eq!(ParseError::UnclosedQuote.message(), "Unclosed quote");
    assert_eq!(
        ParseError::InvalidSyntax("bad token".to_string()).message(),
        "Invalid syntax: bad token"
    );
    assert_eq!(ParseError::InvalidFlag('x').message(), "Invalid flag: -x");
    assert_eq!(
        ParseError::UnknownCommand("foo".to_string()).message(),
        "Command 'foo' not found"
    );
}
