//! The patch overlay's decisions and the path helpers they rest on.

use nu_completions::nu::{find_line_containing, render_source_line, sourcing_file_text};
use nu_completions::paths::{file_name, join, output_location, with_extension};
use nu_completions::patching::{
    classify_diff_result, classify_patch_exit, patch_candidate, plan_patch, select_patch_asset,
    DiffOutcome, PatchAction,
};

#[test]
fn file_name_takes_the_last_segment() {
    assert_eq!(file_name(&"comps/git.fish".to_string()), Some("git.fish".to_string()));
    assert_eq!(file_name(&"git.fish".to_string()), Some("git.fish".to_string()));
    assert_eq!(file_name(&"comps/".to_string()), None);
    assert_eq!(file_name(&"".to_string()), None);
    assert_eq!(file_name(&"a/..".to_string()), None);
}

#[test]
fn with_extension_swaps_or_appends() {
    assert_eq!(with_extension(&"comps/git.fish".to_string(), "nu"), "comps/git.nu");
    assert_eq!(with_extension(&"git.fish".to_string(), "patch"), "git.patch");
    assert_eq!(with_extension(&"noext".to_string(), "nu"), "noext.nu");
    assert_eq!(with_extension(&"a.b.c".to_string(), "nu"), "a.b.nu");
    assert_eq!(with_extension(&"comps/".to_string(), "nu"), "comps/");
}

#[test]
fn join_inserts_a_single_slash() {
    assert_eq!(join(&"out".to_string(), "git.nu"), "out/git.nu");
    assert_eq!(join(&"out/".to_string(), "git.nu"), "out/git.nu");
    assert_eq!(join(&"".to_string(), "git.nu"), "git.nu");
}

#[test]
fn output_location_renames_into_the_output_dir() {
    assert_eq!(
        output_location(&"comps/git.fish".to_string(), &"out".to_string()),
        Some("out/git.nu".to_string())
    );
    assert_eq!(output_location(&"comps/".to_string(), &"out".to_string()), None);
}

#[test]
fn patch_candidate_names_both_files() {
    let plan = patch_candidate(
        &"comps/git.fish".to_string(),
        &"patches".to_string(),
        &"out".to_string(),
    )
    .expect("plan for a named source");
    assert_eq!(plan.patch_file, "patches/git.patch");
    assert_eq!(plan.definition_file, "out/git.nu");
    assert!(patch_candidate(
        &"comps/".to_string(),
        &"patches".to_string(),
        &"out".to_string()
    )
    .is_none());
}

#[test]
fn plan_patch_decides_from_existence() {
    assert_eq!(plan_patch(false, false), PatchAction::SkipNoPatchFile);
    assert_eq!(plan_patch(false, true), PatchAction::SkipNoPatchFile);
    assert_eq!(plan_patch(true, true), PatchAction::RunPatch);
    assert_eq!(plan_patch(true, false), PatchAction::WarnNoDefinition);
}

#[test]
fn patch_exit_zero_is_the_only_success() {
    assert!(classify_patch_exit(Some(0), String::new()).is_ok());
    let err = classify_patch_exit(Some(1), "rejected hunk".to_string()).unwrap_err();
    assert_eq!(err.status, Some(1));
    assert_eq!(err.output, "rejected hunk");
    let killed = classify_patch_exit(None, String::new()).unwrap_err();
    assert_eq!(killed.status, None);
}

#[test]
fn diff_outcomes_follow_output_and_status() {
    assert!(matches!(
        classify_diff_result(false, None),
        Ok(DiffOutcome::NoDifferences)
    ));
    assert!(matches!(
        classify_diff_result(true, Some(0)),
        Ok(DiffOutcome::PatchWritten)
    ));
    assert!(matches!(
        classify_diff_result(true, Some(1)),
        Ok(DiffOutcome::PatchWritten)
    ));
    let err = classify_diff_result(true, Some(2)).unwrap_err();
    assert_eq!(err.status, Some(2));
    assert!(classify_diff_result(true, None).is_err());
}

#[test]
fn the_patch_bundle_asset_is_found_by_name() {
    let names: Vec<String> = ["checksums.txt", "patches.tar.gz", "patches.tar.gz.sig"]
        .iter()
        .map(|s| s.to_string())
        .collect();
    assert_eq!(select_patch_asset(&names), Some(1));
    let none: Vec<String> = vec!["something-else.zip".to_string()];
    assert_eq!(select_patch_asset(&none), None);
}

#[test]
fn source_lines_quote_their_paths() {
    assert_eq!(
        render_source_line(&"out/git.nu".to_string()),
        "source \"out/git.nu\""
    );
    assert_eq!(
        render_source_line(&"o\"dd\\path.nu".to_string()),
        "source \"o\\\"dd\\\\path.nu\""
    );
}

#[test]
fn sourcing_file_lists_every_definition() {
    let defs: Vec<String> = vec!["out/git.nu".to_string(), "out/tar.nu".to_string()];
    assert_eq!(
        sourcing_file_text(&defs),
        "source \"out/git.nu\"\nsource \"out/tar.nu\"\n"
    );
    assert_eq!(sourcing_file_text(&Vec::new()), "");
}

#[test]
fn installed_source_line_is_found_among_lines() {
    let lines: Vec<String> = [
        "# nushell env",
        "source \"elsewhere.nu\"",
        "source \"conf/imports.nu\"",
    ]
    .iter()
    .map(|l| l.to_string())
    .collect();
    assert_eq!(
        find_line_containing(&lines, "source \"conf/imports.nu\""),
        Some(2)
    );
    assert_eq!(find_line_containing(&lines, "source \"missing.nu\""), None);
}
