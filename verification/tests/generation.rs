//! The definition generator.

use nu_completions::completion_line::CompletionLine;
use nu_completions::completions::parse_completions;
use nu_completions::nu::{
    convert_lines, display_name_for, render_command_block, render_lines, GenerationWarning,
    IndentCache,
};

fn directive(
    command: &str,
    short: &[&str],
    long: &[&str],
    old_option: &[&str],
    argument: Option<&str>,
    description: Option<&str>,
) -> CompletionLine {
    CompletionLine {
        command: Some(command.to_string()),
        short: short.iter().map(|s| s.to_string()).collect(),
        long: long.iter().map(|s| s.to_string()).collect(),
        old_option: old_option.iter().map(|s| s.to_string()).collect(),
        argument: argument.map(|s| s.to_string()),
        description: description.map(|s| s.to_string()),
    }
}

#[test]
fn long_with_short_alias_and_long_synonym() {
    // long = ["foo", "bar"], short = ["f"]: the primary definition is
    // --foo(-f) and the one synonym is --bar, referring to --foo.
    let d = directive("x", &["f"], &["foo", "bar"], &[], None, None);
    let mut cache = IndentCache::new();
    let (lines, warnings) = render_command_block(&"x".to_string(), &vec![d], &mut cache);
    assert_eq!(
        lines,
        vec![
            "export extern \"x\" [",
            "    --foo(-f)",
            "    --bar # synonym of --foo",
            "]",
        ]
    );
    assert!(warnings.is_empty());
}

#[test]
fn short_only_synonyms_refer_to_the_first_short() {
    // short = ["a", "b", "c"]: the primary definition is -a and both -b
    // and -c are synonyms of -a.
    let d = directive("x", &["a", "b", "c"], &[], &[], None, None);
    let mut cache = IndentCache::new();
    let (lines, warnings) = render_command_block(&"x".to_string(), &vec![d], &mut cache);
    assert_eq!(
        lines,
        vec![
            "export extern \"x\" [",
            "    -a",
            "    -b # synonym of -a",
            "    -c # synonym of -a",
            "]",
        ]
    );
    assert!(warnings.is_empty());
}

#[test]
fn old_style_directive_yields_no_lines_and_one_warning() {
    let d = directive("x", &[], &[], &["x-old"], None, None);
    let mut cache = IndentCache::new();
    let (lines, warnings) = render_command_block(&"x".to_string(), &vec![d], &mut cache);
    assert_eq!(lines, vec!["export extern \"x\" [", "]"]);
    assert_eq!(warnings.len(), 1);
    match &warnings[0] {
        GenerationWarning::OldStyleOptionsSkipped { command, options } => {
            assert_eq!(command, "x");
            assert_eq!(options, &vec!["x-old".to_string()]);
        }
        other => panic!("unexpected warning: {other:?}"),
    }
}

#[test]
fn directive_without_any_option_warns() {
    let d = directive("x", &[], &[], &[], None, Some("orphan description"));
    let mut cache = IndentCache::new();
    let (lines, warnings) = render_command_block(&"x".to_string(), &vec![d], &mut cache);
    assert_eq!(lines, vec!["export extern \"x\" [", "]"]);
    assert_eq!(warnings.len(), 1);
    assert!(matches!(
        &warnings[0],
        GenerationWarning::NoUsableOption { command } if command == "x"
    ));
}

#[test]
fn argument_appends_a_string_suffix() {
    let d = directive("x", &[], &["output"], &[], Some("FILE"), Some("where to write"));
    let mut cache = IndentCache::new();
    let (lines, _) = render_command_block(&"x".to_string(), &vec![d], &mut cache);
    assert_eq!(
        lines,
        vec![
            "export extern \"x\" [",
            "    --output: string  # where to write",
            "]",
        ]
    );
}

#[test]
fn synonyms_carry_the_directive_description() {
    let d = directive("x", &["r", "R"], &[], &[], None, Some("recurse"));
    let mut cache = IndentCache::new();
    let (lines, _) = render_command_block(&"x".to_string(), &vec![d], &mut cache);
    assert_eq!(
        lines,
        vec![
            "export extern \"x\" [",
            "    -r  # recurse",
            "    -R # recurse (synonym of -r)",
            "]",
        ]
    );
}

#[test]
fn test_convert_one_completion_end_to_end() {
    // `complete -c mockery -s b -d 'test description'` generates a block
    // for mockery holding exactly one definition line.
    let lines: Vec<String> = vec!["complete -c mockery -s b -d 'test description'".to_string()];
    let out = convert_lines(&lines, false).expect("conversion to succeed");
    assert!(out.errors.is_empty());
    assert!(out.warnings.is_empty());
    assert_eq!(
        out.text,
        "export extern \"mockery\" [\n    -b  # test description\n]\n"
    );
}

#[test]
fn unresolved_hyphenated_command_is_displayed_with_spaces() {
    // A command name that resolves to nothing on the search path has its
    // dashes turned into spaces in the block header.
    let lines: Vec<String> =
        vec!["complete -c zzyqx-subcmd-qxzzy -s a -d 'improbable'".to_string()];
    let out = convert_lines(&lines, false).expect("conversion to succeed");
    assert_eq!(
        out.text,
        "export extern \"zzyqx subcmd qxzzy\" [\n    -a  # improbable\n]\n"
    );
}

#[test]
fn display_name_for_known_resolution() {
    assert_eq!(
        display_name_for(&"git-lfs".to_string(), true),
        "git-lfs"
    );
    assert_eq!(
        display_name_for(&"git-lfs".to_string(), false),
        "git lfs"
    );
}

#[test]
fn render_lines_joins_with_newlines() {
    let lines: Vec<String> = vec!["a".to_string(), "b".to_string()];
    assert_eq!(render_lines(&lines), "a\nb\n");
    assert_eq!(render_lines(&Vec::new()), "");
}

#[test]
fn indent_cache_yields_four_spaces_per_level() {
    let mut cache = IndentCache::new();
    assert_eq!(cache.indent(2), "        ");
    assert_eq!(cache.indent(0), "");
    assert_eq!(cache.indent(1), "    ");
}

#[test]
fn blocks_follow_first_seen_command_order() {
    let lines: Vec<String> = [
        "complete -c zzz-not-a-real-one -s a",
        "complete -c aaa-not-a-real-one -s b",
        "complete -c zzz-not-a-real-one -s c",
    ]
    .iter()
    .map(|l| l.to_string())
    .collect();
    let (store, _) = parse_completions(&lines, false).expect("run to succeed");
    assert_eq!(store.len(), 2);
    let out = convert_lines(&lines, false).expect("conversion to succeed");
    let zzz = out.text.find("zzz not a real one").expect("zzz block");
    let aaa = out.text.find("aaa not a real one").expect("aaa block");
    assert!(zzz < aaa);
}
