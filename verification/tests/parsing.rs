//! The directive parser and the completion store.

use nu_completions::completions::{
    parse_completion_line, parse_completions, parse_tokens, Completions, ParseError,
};

#[test]
fn test_parse_one_completion() {
    let mut completions = Completions::new();
    completions
        .parse_one_completion("complete -c mockery -s b -d 'test description'")
        .expect("line to parse");
    let bucket = completions.get("mockery").expect("bucket for mockery");
    let completion = &bucket[0];
    assert_eq!(
        completion
            .command
            .as_ref()
            .expect("command was None")
            .as_str(),
        "mockery"
    );
    assert_eq!(completion.short, vec!["b"]);
    assert_eq!(
        completion
            .description
            .as_ref()
            .expect("description was None")
            .as_str(),
        "test description"
    );
    assert!(completion.long.is_empty());
    assert_eq!(completion.argument, None);
    assert!(completion.old_option.is_empty());
}

#[test]
fn missing_command_is_rejected_and_stores_nothing() {
    let mut completions = Completions::new();
    let r = completions.parse_one_completion("complete -s b -d 'no command here'");
    assert_eq!(r, Err(ParseError::MissingCommand));
    assert!(completions.get("b").is_none());
    assert_eq!(completions.len(), 0);
}

#[test]
fn unmatched_quote_is_a_tokenize_error() {
    let mut completions = Completions::new();
    let r = completions.parse_one_completion("complete -c x -d 'unclosed");
    assert_eq!(r, Err(ParseError::Tokenize));
    assert_eq!(completions.len(), 0);
}

#[test]
fn unknown_flag_is_rejected() {
    let r = parse_completion_line("complete -c x --bogus value");
    assert_eq!(r.err(), Some(ParseError::UnknownToken));
}

#[test]
fn flag_without_value_is_rejected() {
    let r = parse_completion_line("complete -c x -s");
    assert_eq!(r.err(), Some(ParseError::UnknownToken));
}

#[test]
fn repeated_single_value_flag_is_rejected() {
    let r = parse_completion_line("complete -c x -c y");
    assert_eq!(r.err(), Some(ParseError::UnknownToken));
}

#[test]
fn description_value_beginning_with_dash_survives() {
    // The escaper protects a value whose first character is a dash: the
    // flag grammar accepts it instead of reading it as a new flag, and the
    // recovered description is returned unchanged.
    let without_command = parse_completion_line(r#"complete -s r -d "--recursive alias""#);
    assert_eq!(without_command.err(), Some(ParseError::MissingCommand));
    let with_command = parse_completion_line(r#"complete -c cp -s r -d "--recursive alias""#)
        .expect("line to parse");
    assert_eq!(
        with_command.description.as_deref(),
        Some("--recursive alias")
    );
    assert_eq!(with_command.short, vec!["r"]);
}

#[test]
fn repeatable_flags_accumulate_in_order() {
    let c = parse_completion_line("complete -c cp -s r -s R -l recursive -l recurse")
        .expect("line to parse");
    assert_eq!(c.short, vec!["r", "R"]);
    assert_eq!(c.long, vec!["recursive", "recurse"]);
}

#[test]
fn long_flag_spellings_are_accepted() {
    let c = parse_completion_line(
        "complete --command tar --short x --long extract --argument file --description unpack \
         --old-option extract-now",
    )
    .expect("line to parse");
    assert_eq!(c.command.as_deref(), Some("tar"));
    assert_eq!(c.short, vec!["x"]);
    assert_eq!(c.long, vec!["extract"]);
    assert_eq!(c.argument.as_deref(), Some("file"));
    assert_eq!(c.description.as_deref(), Some("unpack"));
    assert_eq!(c.old_option, vec!["extract-now"]);
}

#[test]
fn parse_tokens_interprets_a_split_token_list() {
    let tokens: Vec<String> = ["complete", "-c", "ls", "-s", "l"]
        .iter()
        .map(|t| t.to_string())
        .collect();
    let c = parse_tokens(&tokens).expect("tokens to parse");
    assert_eq!(c.command.as_deref(), Some("ls"));
    assert_eq!(c.short, vec!["l"]);
}

#[test]
fn blank_and_comment_lines_are_skipped() {
    let lines: Vec<String> = [
        "",
        "   ",
        "# a comment",
        "   # an indented comment",
        "complete -c ls -s l -d 'long listing'",
    ]
    .iter()
    .map(|l| l.to_string())
    .collect();
    let (store, errors) = parse_completions(&lines, false).expect("run to succeed");
    assert!(errors.is_empty());
    assert_eq!(store.len(), 1);
    assert!(store.get("ls").is_some());
}

#[test]
fn collected_errors_leave_good_lines_standing() {
    let lines: Vec<String> = [
        "complete -s b",
        "complete -c ls -s l",
    ]
    .iter()
    .map(|l| l.to_string())
    .collect();
    let (store, errors) = parse_completions(&lines, false).expect("permissive run to succeed");
    assert_eq!(errors, vec![ParseError::MissingCommand]);
    assert_eq!(store.len(), 1);
    assert!(store.get("ls").is_some());
}

#[test]
fn fail_fast_aborts_on_the_first_bad_line() {
    let lines: Vec<String> = [
        "complete -s b",
        "complete -c ls -s l",
    ]
    .iter()
    .map(|l| l.to_string())
    .collect();
    let r = parse_completions(&lines, true);
    assert_eq!(r.err(), Some(ParseError::MissingCommand));
}

#[test]
fn directives_for_one_command_share_a_bucket() {
    let lines: Vec<String> = [
        "complete -c git -s p -d 'paginate'",
        "complete -c tar -s x",
        "complete -c git -l version",
    ]
    .iter()
    .map(|l| l.to_string())
    .collect();
    let (store, errors) = parse_completions(&lines, false).expect("run to succeed");
    assert!(errors.is_empty());
    assert_eq!(store.len(), 2);
    let git = store.get("git").expect("bucket for git");
    assert_eq!(git.len(), 2);
    assert_eq!(git[0].short, vec!["p"]);
    assert_eq!(git[1].long, vec!["version"]);
    let tar = store.get("tar").expect("bucket for tar");
    assert_eq!(tar.len(), 1);
}

#[test]
fn error_descriptions_name_the_failure() {
    assert_eq!(
        ParseError::MissingCommand.describe(),
        "completion contained no command name"
    );
    assert_eq!(ParseError::Tokenize.describe(), "error parsing shell words");
    assert_eq!(
        ParseError::UnknownToken.describe(),
        "error parsing completion line"
    );
}
