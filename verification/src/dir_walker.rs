//! Recursive directory traversal: collecting every regular file under a
//! root, following symlinks.
//!
//! What the filesystem holds can change between any two calls, so the
//! wrappers promise nothing of their answers; the traversal is verified to
//! only ever append to its result, and a depth allowance bounds the
//! recursion, guarding against symlink cycles the filesystem may contain.

use vstd::prelude::*;

verus! {

/// How deep the walk follows directories and symlinks before giving up.
pub const MAX_WALK_DEPTH: usize = 64;

/// Why a walk stopped.
#[derive(Debug, Clone)]
pub enum WalkError {
    /// The path does not exist.
    NotFound { path: String },
    /// The path exists but is neither a directory, a symlink, nor a
    /// regular file.
    Incompatible { path: String },
    /// Directories or symlinks were nested beyond the depth allowance.
    DepthLimit { path: String },
    /// Reading a directory or resolving a symlink failed.
    Io { path: String, message: String },
}

/// Relies on std's `Path::is_dir`: whether the path points at a directory.
/// The answer depends on the filesystem, so nothing is promised of it.
#[verifier::external_body]
fn path_is_dir(path: &str) -> bool {
    std::path::Path::new(path).is_dir()
}

/// Relies on std's `Path::is_symlink`: whether the path itself is a
/// symbolic link.  The answer depends on the filesystem, so nothing is
/// promised of it.
#[verifier::external_body]
fn path_is_symlink(path: &str) -> bool {
    std::path::Path::new(path).is_symlink()
}

/// Relies on std's `Path::is_file`: whether the path points at a regular
/// file.  The answer depends on the filesystem, so nothing is promised of
/// it.
#[verifier::external_body]
fn path_is_file(path: &str) -> bool {
    std::path::Path::new(path).is_file()
}

/// Relies on std's `Path::exists`: whether the path points at any existing
/// entity.  The answer depends on the filesystem, so nothing is promised
/// of it.
#[verifier::external_body]
fn path_exists(path: &str) -> bool {
    std::path::Path::new(path).exists()
}

/// Relies on std's `Path::read_dir`: the entries of a directory, each
/// converted to its path's text.  The answer depends on the filesystem, so
/// nothing is promised of it.
#[verifier::external_body]
fn read_dir_entries(path: &str) -> Result<Vec<String>, String> {
    let mut out = Vec::new();
    let entries = std::path::Path::new(path).read_dir().map_err(|e| e.to_string())?;
    for entry in entries {
        let entry = entry.map_err(|e| e.to_string())?;
        out.push(entry.path().to_string_lossy().into_owned());
    }
    Ok(out)
}

/// Relies on std's `Path::read_link`: the target a symbolic link names,
/// converted to its text.  The answer depends on the filesystem, so
/// nothing is promised of it.
#[verifier::external_body]
fn read_link_target(path: &str) -> Result<String, String> {
    std::path::Path::new(path)
        .read_link()
        .map(|p| p.to_string_lossy().into_owned())
        .map_err(|e| e.to_string())
}

/// Walk `path` with a remaining depth allowance, appending every regular
/// file found to `files`.
fn walk_into(path: &String, depth: usize, files: &mut Vec<String>) -> (r: Result<(), WalkError>)
    ensures
        old(files)@.len() <= final(files)@.len(),
        final(files)@.take(old(files)@.len() as int) == old(files)@,
    decreases depth,
{
    if depth == 0 {
        proof {
            assert(files@.take(files@.len() as int) =~= files@);
        }
        return Err(WalkError::DepthLimit { path: path.clone() });
    }
    if path_is_dir(path.as_str()) {
        let entries = match read_dir_entries(path.as_str()) {
            Ok(es) => es,
            Err(message) => {
                proof {
                    assert(files@.take(files@.len() as int) =~= files@);
                }
                return Err(WalkError::Io { path: path.clone(), message });
            },
        };
        let mut i: usize = 0;
        proof {
            assert(files@.take(old(files)@.len() as int) =~= old(files)@);
        }
        while i < entries.len()
            invariant
                i <= entries@.len(),
                old(files)@.len() <= files@.len(),
                files@.take(old(files)@.len() as int) == old(files)@,
                depth >= 1,
            decreases entries@.len() - i,
        {
            let e: &String = &entries[i];
            let ghost before = files@;
            match walk_into(e, depth - 1, files) {
                Ok(_) => {},
                Err(err) => {
                    proof {
                        assert(files@.take(old(files)@.len() as int) =~= before.take(
                            old(files)@.len() as int,
                        ));
                    }
                    return Err(err);
                },
            }
            proof {
                assert(files@.take(old(files)@.len() as int) =~= before.take(
                    old(files)@.len() as int,
                ));
            }
            i = i + 1;
        }
        Ok(())
    } else if path_is_symlink(path.as_str()) {
        let target = match read_link_target(path.as_str()) {
            Ok(t) => t,
            Err(message) => {
                proof {
                    assert(files@.take(files@.len() as int) =~= files@);
                }
                return Err(WalkError::Io { path: path.clone(), message });
            },
        };
        walk_into(&target, depth - 1, files)
    } else if path_is_file(path.as_str()) {
        let ghost before = files@;
        files.push(path.clone());
        proof {
            assert(files@.take(before.len() as int) =~= before);
        }
        Ok(())
    } else if path_exists(path.as_str()) {
        proof {
            assert(files@.take(files@.len() as int) =~= files@);
        }
        Err(WalkError::Incompatible { path: path.clone() })
    } else {
        proof {
            assert(files@.take(files@.len() as int) =~= files@);
        }
        Err(WalkError::NotFound { path: path.clone() })
    }
}

/// Every regular file under `path`, following symlinks, in traversal
/// order.  What comes back depends on the filesystem at the moment of the
/// call, so no more is promised of it.
pub fn walk_dir(path: &String) -> (r: Result<Vec<String>, WalkError>) {
    let mut files: Vec<String> = Vec::new();
    match walk_into(path, MAX_WALK_DEPTH, &mut files) {
        Ok(_) => Ok(files),
        Err(e) => Err(e),
    }
}

} // verus!
