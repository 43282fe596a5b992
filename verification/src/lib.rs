//! Statistics over the history of a git repository: how many commits its
//! references lead to, how many people wrote them, how many local branches
//! it has.
//!
//! The heart of the crate is one walk over the commit graph. It starts from
//! all heads at once, visits every commit that they lead to exactly once,
//! however many references and parent links lead to it, and counts the
//! commits and the distinct identities of their authors on the way.
//!
//! * [`graph`] says what a commit graph is and what is reachable in it.
//! * [`walk`] holds the walk itself, which is handed each commit by its caller.
//! * [`history`] is a history in memory, walked by [`history::History::walk_from`].
//! * [`repo`] walks a repository on disk, which it reads through `git2`.
//! * [`id`], [`identity`] and [`table`] hold commit identifiers, author
//!   identities and the table of visited commits.
//! * [`format`] and [`size`] prepare numbers for display.

pub mod error;
pub mod format;
pub mod graph;
pub mod history;
pub mod id;
pub mod identity;
pub mod repo;
pub mod size;
pub mod table;
pub mod walk;
