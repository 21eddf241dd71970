use mini_shell::CommandType;
use mini_shell::Flag;
use mini_shell::ParseError;
use mini_shell::parse;

#[test]
fn test_single_command() {
    let result = parse("ls -la").unwrap();
    assert_eq!(result.command.len(), 1);
    assert_eq!(result.command[0].name, CommandType::Ls);
}

#[test]
fn test_multiple_commands_semicolon() {
    let result = parse("ls ; pwd ; echo test").unwrap();
    assert_eq!(result.command.len(), 3);
    assert_eq!(result.command[0].name, CommandType::Ls);
    assert_eq!(result.command[1].name, CommandType::Pwd);
    assert_eq!(result.command[2].name, CommandType::Echo);
}

#[test]
fn test_multiple_commands_and() {
    let result = parse("ls && pwd").unwrap();
    assert_eq!(result.command.len(), 2);
}

fn check_bare_name(name: &str, kind: CommandType) {
    let result = parse(name).unwrap();
    assert_eq!(result.command.len(), 1);
    assert_eq!(result.command[0].name, kind);
    assert!(result.command[0].flags.is_empty());
    assert!(result.command[0].args.is_empty());
}

#[test]
fn every_table_name_parses_bare() {
    check_bare_name("echo", CommandType::Echo);
    check_bare_name("cd", CommandType::Cd);
    check_bare_name("ls", CommandType::Ls);
    check_bare_name("pwd", CommandType::Pwd);
    check_bare_name("cat", CommandType::Cat);
    check_bare_name("cp", CommandType::Cp);
    check_bare_name("rm", CommandType::Rm);
    check_bare_name("mv", CommandType::Mv);
    check_bare_name("mkdir", CommandType::Mkdir);
    check_bare_name("exit", CommandType::Exit);
}

#[test]
fn empty_input_is_rejected() {
    assert_eq!(parse(""), Err(ParseError::EmptyInput));
    assert_eq!(parse("   "), Err(ParseError::EmptyInput));
}

#[test]
fn clustered_flags_are_collected() {
    let result = parse("ls -la").unwrap();
    assert_eq!(result.command.len(), 1);
    let flags = &result.command[0].flags;
    assert_eq!(flags.len(), 2);
    assert!(flags.contains(&Flag::L));
    assert!(flags.contains(&Flag::A));
    assert!(result.command[0].args.is_empty());
}

#[test]
fn flag_and_argument_are_partitioned() {
    let result = parse("ls -l /home").unwrap();
    assert_eq!(result.command.len(), 1);
    assert_eq!(result.command[0].flags, vec![Flag::L]);
    assert_eq!(result.command[0].args, vec!["/home".to_string()]);
}

#[test]
fn recursive_remove_parses() {
    let result = parse("rm -r folder").unwrap();
    assert_eq!(result.command.len(), 1);
    assert_eq!(result.command[0].name, CommandType::Rm);
    assert_eq!(result.command[0].flags, vec![Flag::R]);
    assert_eq!(result.command[0].args, vec!["folder".to_string()]);
}

#[test]
fn double_quotes_keep_inner_space() {
    let result = parse("echo \"Hello World\"").unwrap();
    assert_eq!(result.command.len(), 1);
    assert_eq!(result.command[0].name, CommandType::Echo);
    assert_eq!(result.command[0].args, vec!["Hello World".to_string()]);
}

#[test]
fn unknown_flag_character_is_rejected() {
    assert_eq!(parse("ls -x"), Err(ParseError::InvalidFlag('x')));
}

#[test]
fn unknown_command_is_rejected_with_its_name() {
    assert_eq!(
        parse("unknown_cmd"),
        Err(ParseError::UnknownCommand("unknown_cmd".to_string()))
    );
}

#[test]
fn semicolon_list_keeps_order_and_arguments() {
    let result = parse("ls ; pwd ; echo test").unwrap();
    assert_eq!(result.command.len(), 3);
    assert!(result.command[0].args.is_empty());
    assert!(result.command[1].args.is_empty());
    assert_eq!(result.command[2].args, vec!["test".to_string()]);
}

#[test]
fn double_ampersand_separates_two_commands() {
    let result = parse("ls && pwd").unwrap();
    assert_eq!(result.command.len(), 2);
    assert_eq!(result.command[0].name, CommandType::Ls);
    assert_eq!(result.command[1].name, CommandType::Pwd);
}

#[test]
fn unterminated_quote_is_rejected() {
    assert_eq!(parse("echo 'unterminated"), Err(ParseError::UnclosedQuote));
}

#[test]
fn reparsing_the_same_line_gives_equal_results() {
    let first = parse("ls -la /tmp ; echo \"a b\" && rm -r x").unwrap();
    let second = parse("ls -la /tmp ; echo \"a b\" && rm -r x").unwrap();
    assert_eq!(first, second);
}

#[test]
fn repeated_flag_characters_are_deduplicated() {
    let result = parse("ls -ll").unwrap();
    assert_eq!(result.command.len(), 1);
    assert_eq!(result.command[0].flags, vec![Flag::L]);
}

#[test]
fn command_names_are_case_insensitive() {
    let result = parse("LS -l").unwrap();
    assert_eq!(result.command[0].name, CommandType::Ls);
    let result = parse("Echo hi").unwrap();
    assert_eq!(result.command[0].name, CommandType::Echo);
    assert_eq!(result.command[0].args, vec!["hi".to_string()]);
}

#[test]
fn stray_separators_are_skipped() {
    let result = parse("ls ;;").unwrap();
    assert_eq!(result.command.len(), 1);
    assert_eq!(result.command[0].name, CommandType::Ls);
    let result = parse(";; ls ; ; pwd &&").unwrap();
    assert_eq!(result.command.len(), 2);
}

#[test]
fn only_separators_is_empty_input() {
    assert_eq!(parse(";;"), Err(ParseError::EmptyInput));
    assert_eq!(parse(" && "), Err(ParseError::EmptyInput));
}

#[test]
fn single_ampersand_separates_like_double() {
    let result = parse("ls & pwd").unwrap();
    assert_eq!(result.command.len(), 2);
    assert_eq!(result.command[0].name, CommandType::Ls);
    assert_eq!(result.command[1].name, CommandType::Pwd);
}

#[test]
fn lone_pipe_is_kept_literally() {
    let result = parse("echo a | b").unwrap();
    assert_eq!(result.command.len(), 1);
    assert_eq!(
        result.command[0].args,
        vec!["a".to_string(), "|".to_string(), "b".to_string()]
    );
}

#[test]
fn double_pipe_separates_two_commands() {
    let result = parse("ls || pwd").unwrap();
    assert_eq!(result.command.len(), 2);
    assert_eq!(result.command[0].name, CommandType::Ls);
    assert_eq!(result.command[1].name, CommandType::Pwd);
}

#[test]
fn backslash_escapes_a_space() {
    let result = parse("echo a\\ b").unwrap();
    assert_eq!(result.command[0].args, vec!["a b".to_string()]);
}

#[test]
fn backslash_escapes_a_quote() {
    let result = parse("echo \\\"hi").unwrap();
    assert_eq!(result.command[0].args, vec!["\"hi".to_string()]);
}

#[test]
fn trailing_lone_backslash_is_dropped() {
    let result = parse("echo abc\\").unwrap();
    assert_eq!(result.command[0].args, vec!["abc".to_string()]);
}

#[test]
fn double_hyphen_token_is_an_argument() {
    let result = parse("ls --all").unwrap();
    assert!(result.command[0].flags.is_empty());
    assert_eq!(result.command[0].args, vec!["--all".to_string()]);
}

#[test]
fn bare_hyphen_is_an_argument() {
    let result = parse("cat -").unwrap();
    assert!(result.command[0].flags.is_empty());
    assert_eq!(result.command[0].args, vec!["-".to_string()]);
}

#[test]
fn tabs_separate_tokens() {
    let result = parse("ls\t-l\t/tmp").unwrap();
    assert_eq!(result.command[0].flags, vec![Flag::L]);
    assert_eq!(result.command[0].args, vec!["/tmp".to_string()]);
}

#[test]
fn single_quotes_keep_inner_double_quote() {
    let result = parse("echo 'he said \"hi\"'").unwrap();
    assert_eq!(result.command[0].args, vec!["he said \"hi\"".to_string()]);
}

#[test]
fn quoted_separator_does_not_split() {
    let result = parse("echo \"a ; b\"").unwrap();
    assert_eq!(result.command.len(), 1);
    assert_eq!(result.command[0].args, vec!["a ; b".to_string()]);
}

#[test]
fn capital_f_flag_is_recognized() {
    let result = parse("ls -F").unwrap();
    assert_eq!(result.command[0].flags, vec![Flag::F]);
    assert_eq!(parse("ls -f"), Err(ParseError::InvalidFlag('f')));
}

#[test]
fn error_in_any_segment_aborts_the_line() {
    assert_eq!(
        parse("ls ; badcmd ; pwd"),
        Err(ParseError::UnknownCommand("badcmd".to_string()))
    );
    assert_eq!(parse("ls -x ; pwd"), Err(ParseError::InvalidFlag('x')));
    assert_eq!(parse("ls ; echo 'oops"), Err(ParseError::UnclosedQuote));
}

#[test]
fn copy_without_arguments_is_syntactically_valid() {
    let result = parse("cp").unwrap();
    assert_eq!(result.command[0].name, CommandType::Cp);
    assert!(result.command[0].args.is_empty());
}

#[test]
fn flags_accumulate_across_tokens() {
    let result = parse("ls -l -a src").unwrap();
    assert_eq!(result.command[0].flags, vec![Flag::L, Flag::A]);
    assert_eq!(result.command[0].args, vec!["src".to_string()]);
}

#[test]
fn arguments_join_with_single_spaces() {
    let result = parse("echo a \"b c\" d").unwrap();
    assert_eq!(result.command[0].joined_args(), "a b c d");
    let result = parse("echo").unwrap();
    assert_eq!(result.command[0].joined_args(), "");
    let result = parse("echo one").unwrap();
    assert_eq!(result.command[0].joined_args(), "one");
}

#[test]
fn surrounding_whitespace_is_trimmed() {
    let result = parse("  ls -l  \n").unwrap();
    assert_eq!(result.command.len(), 1);
    assert_eq!(result.command[0].flags, vec![Flag::L]);
}
