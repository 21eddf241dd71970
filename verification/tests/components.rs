use mini_shell::Flag;
use mini_shell::ParseError;
use mini_shell::parse_flags_and_args;
use mini_shell::split_commands;
use mini_shell::tokenize;

#[test]
fn split_keeps_quote_characters_in_segments() {
    let segs = split_commands("echo \"a ; b\" ; ls");
    assert_eq!(segs, vec!["echo \"a ; b\" ".to_string(), " ls".to_string()]);
}

#[test]
fn split_consumes_separators() {
    let segs = split_commands("ls;pwd&&echo hi&cat||mv");
    assert_eq!(
        segs,
        vec![
            "ls".to_string(),
            "pwd".to_string(),
            "echo hi".to_string(),
            "cat".to_string(),
            "mv".to_string()
        ]
    );
}

#[test]
fn split_drops_a_blank_tail_only() {
    let segs = split_commands("ls ;   ");
    assert_eq!(segs, vec!["ls ".to_string()]);
    let segs = split_commands("; ls");
    assert_eq!(segs, vec!["".to_string(), " ls".to_string()]);
}

#[test]
fn tokenize_strips_quotes_and_splits_on_whitespace() {
    let tokens = tokenize("echo  \"a b\"\t'c d' e").unwrap();
    assert_eq!(
        tokens,
        vec![
            "echo".to_string(),
            "a b".to_string(),
            "c d".to_string(),
            "e".to_string()
        ]
    );
}

#[test]
fn tokenize_reports_an_open_quote() {
    assert_eq!(tokenize("echo \"open"), Err(ParseError::UnclosedQuote));
    assert_eq!(tokenize("echo 'open"), Err(ParseError::UnclosedQuote));
}

#[test]
fn tokenize_applies_escapes_inside_quotes() {
    let tokens = tokenize("\"a\\\"b\"").unwrap();
    assert_eq!(tokens, vec!["a\"b".to_string()]);
}

#[test]
fn tokenize_of_blank_text_yields_no_tokens() {
    let tokens = tokenize("   \t ").unwrap();
    assert!(tokens.is_empty());
}

#[test]
fn flags_and_args_partition_mixed_tokens() {
    let tokens = vec![
        "-la".to_string(),
        "src".to_string(),
        "-F".to_string(),
        "--keep".to_string(),
        "-".to_string(),
    ];
    let (flags, args) = parse_flags_and_args(&tokens).unwrap();
    assert_eq!(flags, vec![Flag::L, Flag::A, Flag::F]);
    assert_eq!(
        args,
        vec!["src".to_string(), "--keep".to_string(), "-".to_string()]
    );
}

#[test]
fn flags_and_args_report_the_first_bad_character() {
    let tokens = vec!["-l".to_string(), "-zx".to_string()];
    assert_eq!(
        parse_flags_and_args(&tokens),
        Err(ParseError::InvalidFlag('z'))
    );
}

#[test]
fn flags_and_args_deduplicate_across_tokens() {
    let tokens = vec!["-l".to_string(), "-la".to_string(), "-al".to_string()];
    let (flags, args) = parse_flags_and_args(&tokens).unwrap();
    assert_eq!(flags, vec![Flag::L, Flag::A]);
    assert!(args.is_empty());
}
