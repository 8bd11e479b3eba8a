//! The escaper, the unescaper, and the quoting adapter.

use nu_completions::completion_line::{adapt_quoting, CompletionLine};

#[test]
fn test_escape_options_which_start_with_a_dash() {
    let cases = [
        (" -d '-test'", " -d '\u{FFFC}-test'"),
        (
            " -l ---test -d '-with multiple opts' -s -",
            " -l \u{FFFC}---test -d '\u{FFFC}-with multiple opts' -s \u{FFFC}-",
        ),
    ];
    for (before, after) in cases {
        assert_eq!(
            CompletionLine::escape_options_which_start_with_a_dash(before),
            after
        );
    }
}

#[test]
fn test_unescape_options_which_start_with_a_dash() {
    assert_eq!(
        CompletionLine::unescape_option_which_starts_with_a_dash("\u{FFFC}-test"),
        "-test"
    );
}

#[test]
fn unescape_without_sentinel_is_identity() {
    assert_eq!(
        CompletionLine::unescape_option_which_starts_with_a_dash("--recursive alias"),
        "--recursive alias"
    );
}

#[test]
fn escape_leaves_plain_lines_alone() {
    let line = "complete -c git -s p -d 'paginate output'";
    assert_eq!(
        CompletionLine::escape_options_which_start_with_a_dash(line),
        line
    );
}

#[test]
fn escaped_quote_becomes_one_token_with_literal_quote() {
    // A fish-style backslash-escaped quote inside a single-quoted value,
    // adapted and then word-split, must come back as one token holding a
    // literal quote.
    let adapted = adapt_quoting(r"'isn\'t'");
    assert_eq!(adapted, r#"'isn'"'"'t'"#);
    let words = shell_words::split(&adapted).expect("split to succeed");
    assert_eq!(words, vec!["isn't"]);
}

#[test]
fn double_backslash_before_quote_keeps_quote_boundary() {
    // A double backslash just before a closing quote must survive the
    // adaptation untouched, leaving the quote as a boundary rather than
    // turning it into the escaped-quote idiom.
    let adapted = adapt_quoting(r"'x\\' next");
    assert_eq!(adapted, r"'x\\' next");
    let words = shell_words::split(&adapted).expect("split to succeed");
    assert_eq!(words, vec!["x\\\\", "next"]);
}
