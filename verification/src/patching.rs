//! The patch overlay's decisions.
//!
//! The overlay itself runs the external `patch` and `diff` tools; what this
//! module holds is everything decidable without running them: where a
//! source's patch file and generated definition live, whether a patch run
//! is due, how each tool's exit is classified, and which release asset
//! carries the patch bundle.

use vstd::prelude::*;

use crate::paths::{file_name, file_name_spec, join, join_spec, with_extension, with_extension_spec};
use crate::text::str_eq;

verus! {

/// The external `patch` tool reported failure.
#[derive(Debug, Clone)]
pub struct PatchError {
    /// The tool's exit status code, absent when it was ended by a signal.
    pub status: Option<i32>,
    /// What the tool printed.
    pub output: String,
}

/// The external `diff` tool exited in a way that means neither "no
/// differences" nor "differences found".
#[derive(Debug, Clone)]
pub struct DiffError {
    /// The tool's exit status code, absent when it was ended by a signal.
    pub status: Option<i32>,
}

/// What a `diff` run amounted to.
#[derive(Debug, Clone, Copy, PartialEq, Eq, Structural)]
pub enum DiffOutcome {
    /// The files did not differ: no patch is needed and the destination is
    /// left untouched.
    NoDifferences,
    /// The diff was written out as a patch.
    PatchWritten,
}

/// Classify the `patch` tool's exit: only status `0` is success.
pub fn classify_patch_exit(status: Option<i32>, output: String) -> (r: Result<(), PatchError>)
    ensures
        match r {
            Ok(_) => status == Some(0i32),
            Err(e) => status != Some(0i32) && e.status == status && e.output@ == output@,
        },
{
    match status {
        Some(0i32) => Ok(()),
        _ => Err(PatchError { status, output }),
    }
}

/// Classify a `diff` run from whether it produced output and how it
/// exited.  No output means the files agree, and the exit is not consulted.
/// With output, status `0` (no differences) and `1` (differences found)
/// both count as success; anything else is fatal.
pub fn classify_diff_result(had_output: bool, status: Option<i32>) -> (r: Result<
    DiffOutcome,
    DiffError,
>)
    ensures
        match r {
            Ok(DiffOutcome::NoDifferences) => !had_output,
            Ok(DiffOutcome::PatchWritten) => had_output && (status == Some(0i32) || status == Some(
                1i32,
            )),
            Err(e) => had_output && !(status == Some(0i32) || status == Some(1i32)) && e.status
                == status,
        },
{
    if !had_output {
        return Ok(DiffOutcome::NoDifferences);
    }
    match status {
        Some(0i32) => Ok(DiffOutcome::PatchWritten),
        Some(1i32) => Ok(DiffOutcome::PatchWritten),
        _ => Err(DiffError { status }),
    }
}

/// Where a source's patch file and generated definition are expected.
#[derive(Debug, Clone)]
pub struct PatchPlan {
    /// The patch file inside the patch directory, named after the source
    /// with the `patch` extension.
    pub patch_file: String,
    /// The generated definition inside the output directory, named after
    /// the source with the `nu` extension.
    pub definition_file: String,
}

/// The patch file a source's candidate plan names.
pub open spec fn patch_file_spec(source: Seq<char>, patch_dir: Seq<char>) -> Option<Seq<char>> {
    match file_name_spec(with_extension_spec(source, "patch"@)) {
        Some(n) => Some(join_spec(patch_dir, n)),
        None => None,
    }
}

/// The definition file a source's candidate plan names.
pub open spec fn definition_file_spec(source: Seq<char>, output_dir: Seq<char>) -> Option<
    Seq<char>,
> {
    match file_name_spec(with_extension_spec(source, "nu"@)) {
        Some(n) => Some(join_spec(output_dir, n)),
        None => None,
    }
}

/// The candidate plan for one source: where its patch file would sit in
/// the patch directory and its generated definition in the output
/// directory.  A source without a usable file name has no plan.
pub fn patch_candidate(source: &String, patch_dir: &String, output_dir: &String) -> (r: Option<
    PatchPlan,
>)
    ensures
        match r {
            Some(plan) => patch_file_spec(source@, patch_dir@) == Some(plan.patch_file@)
                && definition_file_spec(source@, output_dir@) == Some(plan.definition_file@),
            None => patch_file_spec(source@, patch_dir@) is None || definition_file_spec(
                source@,
                output_dir@,
            ) is None,
        },
{
    let with_patch = with_extension(source, "patch");
    let patch_name = match file_name(&with_patch) {
        Some(n) => n,
        None => {
            return None;
        },
    };
    let with_nu = with_extension(source, "nu");
    let def_name = match file_name(&with_nu) {
        Some(n) => n,
        None => {
            return None;
        },
    };
    Some(
        PatchPlan {
            patch_file: join(patch_dir, patch_name.as_str()),
            definition_file: join(output_dir, def_name.as_str()),
        },
    )
}

/// What to do for one source once the filesystem has been consulted.
#[derive(Debug, Clone, Copy, PartialEq, Eq, Structural)]
pub enum PatchAction {
    /// Patch file and definition both exist: run the patch tool.
    RunPatch,
    /// No patch file exists for this source: nothing to do.
    SkipNoPatchFile,
    /// A patch file exists but the definition it would patch does not;
    /// worth a warning, since conversion may have failed.
    WarnNoDefinition,
}

/// The decision for one source, given whether its patch file and its
/// generated definition exist.
pub fn plan_patch(patch_exists: bool, definition_exists: bool) -> (r: PatchAction)
    ensures
        r == (if !patch_exists {
            PatchAction::SkipNoPatchFile
        } else if definition_exists {
            PatchAction::RunPatch
        } else {
            PatchAction::WarnNoDefinition
        }),
{
    if !patch_exists {
        PatchAction::SkipNoPatchFile
    } else if definition_exists {
        PatchAction::RunPatch
    } else {
        PatchAction::WarnNoDefinition
    }
}

/// The index of the first release asset named `patches.tar.gz`, the
/// archive holding the default patch set.
pub fn select_patch_asset(names: &Vec<String>) -> (r: Option<usize>)
    ensures
        match r {
            Some(i) => i < names@.len() && names.deep_view()[i as int] == "patches.tar.gz"@
                && forall|j: int|
                0 <= j < i ==> #[trigger] names.deep_view()[j] != "patches.tar.gz"@,
            None => forall|j: int|
                0 <= j < names@.len() ==> #[trigger] names.deep_view()[j] != "patches.tar.gz"@,
        },
{
    let mut i: usize = 0;
    while i < names.len()
        invariant
            i <= names@.len(),
            forall|j: int| 0 <= j < i ==> #[trigger] names.deep_view()[j] != "patches.tar.gz"@,
        decreases names@.len() - i,
    {
        let n: &String = &names[i];
        proof {
            assert(names.deep_view()[i as int] == names@[i as int]@);
        }
        if str_eq(n.as_str(), "patches.tar.gz") {
            return Some(i);
        }
        i = i + 1;
    }
    None
}

} // verus!
