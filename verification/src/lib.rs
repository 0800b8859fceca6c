//! Keeps a derived, queryable index of a small fixed set of notes in step with
//! their saved text.
//!
//! The notes themselves live in one file per slot under a workspace root.  This
//! crate holds everything that is decided or computed on the way from a snapshot
//! of their contents to the index: the derived fields of a note, the ordered
//! change set of one synchronization pass, the text of the transaction that
//! carries it out, and the file operations of a save.  Reading and writing
//! files and running the transaction are left to the caller.

pub mod index;
pub mod paths;
pub mod plan;
pub mod script;
pub mod shape;
pub mod slot;
pub mod snapshot;
pub mod sql;
pub mod store;
pub mod text;
