//! Staging of pinned `uses:` lines.
//!
//! A tool that pins the actions of a workflow file to commit hashes also
//! reformats the file. This library rebuilds, from the committed text of the
//! file and its working text, the text to stage: the committed text, in which
//! each `uses:` line has taken over the pin of the `uses:` line of the same
//! rank in the working text and kept its own indentation and its own line
//! end. Everything else in the working text stays out of the commit.
//!
//! The library computes and decides; it reads no file and runs no command.
//!
//! - [`text`] and [`lines`]: characters, patterns, and a text as its lines,
//!   closed by a line feed or by a carriage return and a line feed.
//! - [`target`]: which lines are target lines, and how those of two texts are
//!   paired.
//! - [`rebuild`]: the rebuilt line and the rebuilt text; [`laws`]: what holds
//!   of them.
//! - [`changes`]: which files belong to the changed set.
//! - [`validate`]: an advisory scan of a text for a broken structure.
//! - [`staging`]: the plan for the changed files and the steps of staging.
//! - [`git`]: the repository, with the operations by their customary names.
//! - [`ratchet`]: the comments of the pinning tool, cut down to the version.
//! - [`dispatch`]: the way from a list of repositories to their pull
//!   requests.

pub mod changes;
pub mod dispatch;
pub mod git;
pub mod laws;
pub mod lines;
pub mod ratchet;
pub mod rebuild;
pub mod staging;
pub mod target;
pub mod text;
pub mod validate;
