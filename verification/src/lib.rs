//! Translation of fish shell completion directives into nushell `extern`
//! definitions.
//!
//! A completion directive is a single `complete ...` line naming a command
//! and its options.  The library parses such lines into `CompletionLine`
//! values, collects them per command in a `Completions` store, and renders
//! one `export extern` block per command.  A small patch overlay keeps hand
//! edits to generated files reapplicable after regeneration.

pub mod completion_line;
pub mod completions;
pub mod dir_walker;
pub mod nu;
pub mod patching;
pub mod paths;
pub mod text;
