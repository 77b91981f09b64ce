//! A library for staging bulk file renames, deletions and moves.
//!
//! A changeset pairs each relative file path of a directory tree with an
//! action: move the file to a new relative path, delete it, or ignore it
//! with a free-text comment.  The pairing is persisted as two parallel
//! sidecar files (one path per line, one formatted action per line), edited
//! by hand, re-imported positionally, reconciled against a fresh tree scan,
//! and finally turned into an ordered plan of filesystem steps.

pub mod action;
pub mod changeset;
pub mod error;
pub mod order;
pub mod paths;
pub mod plan;
pub mod reconcile;
pub mod text;
